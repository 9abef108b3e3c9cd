//! The words that turtles act on.

use vstd::prelude::*;
use vstd::string::*;

verus! {

/// The words of both turtles differ from each other.
pub proof fn lemma_words()
    ensures
        "HalfForward"@.len() == 11,
        "HalfForward"@[0] == 'H',
        "HalfMove"@.len() == 8,
        "HalfMove"@[0] == 'H',
        "+"@.len() == 1,
        "+"@[0] == '+',
        "Plus"@.len() == 4,
        "Plus"@[0] == 'P',
        "ExplicitPlus"@.len() == 12,
        "ExplicitPlus"@[0] == 'E',
        "Left"@.len() == 4,
        "Left"@[0] == 'L',
        "Turn"@.len() == 4,
        "Turn"@[0] == 'T',
        "-"@.len() == 1,
        "-"@[0] == '-',
        "Minus"@.len() == 5,
        "Minus"@[0] == 'M',
        "ExplicitMinus"@.len() == 13,
        "ExplicitMinus"@[0] == 'E',
        "Right"@.len() == 5,
        "Right"@[0] == 'R',
        "TurnAround"@.len() == 10,
        "TurnAround"@[0] == 'T',
        "Around"@.len() == 6,
        "Around"@[0] == 'A',
        "InvertTurns"@.len() == 11,
        "InvertTurns"@[0] == 'I',
        "Scale"@.len() == 5,
        "Scale"@[0] == 'S',
        "ScaleLength"@.len() == 11,
        "ScaleLength"@[0] == 'S',
        "ScaleLengthInverse"@.len() == 18,
        "ScaleLengthInverse"@[0] == 'S',
        "Width"@.len() == 5,
        "Width"@[0] == 'W',
        "SetWidth"@.len() == 8,
        "SetWidth"@[0] == 'S',
        "WidthIncrease"@.len() == 13,
        "WidthIncrease"@[0] == 'W',
        "WidthIncrease"@[5] == 'I',
        "WidthDecrease"@.len() == 13,
        "WidthDecrease"@[0] == 'W',
        "WidthDecrease"@[5] == 'D',
        "TurnAngleIncrease"@.len() == 17,
        "TurnAngleIncrease"@[0] == 'T',
        "TurnAngleIncrease"@[9] == 'I',
        "TurnAngleDecrease"@.len() == 17,
        "TurnAngleDecrease"@[0] == 'T',
        "TurnAngleDecrease"@[9] == 'D',
        "Color"@.len() == 5,
        "Color"@[0] == 'C',
        "ColorIncrement"@.len() == 14,
        "ColorIncrement"@[0] == 'C',
        "ColorNext"@.len() == 9,
        "ColorNext"@[0] == 'C',
        "ColorPrevious"@.len() == 13,
        "ColorPrevious"@[0] == 'C',
        "Dot"@.len() == 3,
        "Dot"@[0] == 'D',
        "PolygonBegin"@.len() == 12,
        "PolygonBegin"@[0] == 'P',
        "PolygonEnd"@.len() == 10,
        "PolygonEnd"@[0] == 'P',
        "Vertex"@.len() == 6,
        "Vertex"@[0] == 'V',
        "Cut"@.len() == 3,
        "Cut"@[0] == 'C',
        "F"@.len() == 1,
        "F"@[0] == 'F',
        "f"@.len() == 1,
        "f"@[0] == 'f',
        "PitchUp"@.len() == 7,
        "PitchUp"@[0] == 'P',
        "PitchDown"@.len() == 9,
        "PitchDown"@[0] == 'P',
        "RollLeft"@.len() == 8,
        "RollLeft"@[0] == 'R',
        "RollRight"@.len() == 9,
        "RollRight"@[0] == 'R',
        "Horizontal"@.len() == 10,
        "Horizontal"@[0] == 'H',
        "Vertical"@.len() == 8,
        "Vertical"@[0] == 'V',
        "Object"@.len() == 6,
        "Object"@[0] == 'O',
        "Surface"@.len() == 7,
        "Surface"@[0] == 'S',
{
    reveal_strlit("HalfForward");
    reveal_strlit("HalfMove");
    reveal_strlit("+");
    reveal_strlit("Plus");
    reveal_strlit("ExplicitPlus");
    reveal_strlit("Left");
    reveal_strlit("Turn");
    reveal_strlit("-");
    reveal_strlit("Minus");
    reveal_strlit("ExplicitMinus");
    reveal_strlit("Right");
    reveal_strlit("TurnAround");
    reveal_strlit("Around");
    reveal_strlit("InvertTurns");
    reveal_strlit("Scale");
    reveal_strlit("ScaleLength");
    reveal_strlit("ScaleLengthInverse");
    reveal_strlit("Width");
    reveal_strlit("SetWidth");
    reveal_strlit("WidthIncrease");
    reveal_strlit("WidthDecrease");
    reveal_strlit("TurnAngleIncrease");
    reveal_strlit("TurnAngleDecrease");
    reveal_strlit("Color");
    reveal_strlit("ColorIncrement");
    reveal_strlit("ColorNext");
    reveal_strlit("ColorPrevious");
    reveal_strlit("Dot");
    reveal_strlit("PolygonBegin");
    reveal_strlit("PolygonEnd");
    reveal_strlit("Vertex");
    reveal_strlit("Cut");
    reveal_strlit("F");
    reveal_strlit("f");
    reveal_strlit("PitchUp");
    reveal_strlit("PitchDown");
    reveal_strlit("RollLeft");
    reveal_strlit("RollRight");
    reveal_strlit("Horizontal");
    reveal_strlit("Vertical");
    reveal_strlit("Object");
    reveal_strlit("Surface");
}

} // verus!
