//! The settings of a system as the user enters them.

use vstd::prelude::*;
use vstd::string::*;

use crate::config::Turtle2dConfig;
use crate::identity::{
    copy_config, settings_of, AmbiguousRules, FloatWidth, Identity, RenderIdentity, Settings,
};
use crate::kind::VisualizerKind;
use crate::single::Single;
use crate::text::{chars_of, decimal, decimal_text, parse_unsigned, push_decimal, unsigned_value};
use crate::work::{maybe_text, next_number};

verus! {

pub const MIN_LINE_WIDTH_PERCENT: u16 = 5;

pub const MAX_LINE_WIDTH_PERCENT: u16 = 200;

pub const DEFAULT_LINE_WIDTH_PERCENT: u16 = 100;

/// The binary32 pattern of 180.
pub const STRAIGHT_ANGLE_BITS: u32 = 0x4334_0000;

/// What a preset sets.
#[derive(Debug)]
pub struct PresetChoice {
    pub source: String,
    pub iterations: usize,
    pub max_iterations: usize,
    pub visualizer: VisualizerKind,
    pub config: Turtle2dConfig,
    pub anchor: Option<u32>,
    pub angle: Single,
}

/// The settings of a system.
#[derive(Debug)]
pub struct Controls {
    pub selected_preset: Option<usize>,
    pub preset_search: String,
    pub source: String,
    pub source_edit_token: u64,
    pub angle: Single,
    pub line_width_percent: u16,
    pub iterations: usize,
    pub iterations_input: String,
    pub iterations_notice: Option<String>,
    pub suggested_max_iterations: usize,
    pub seed_input: String,
    pub seed_placeholder: String,
    pub effective_seed: u64,
    pub seed_notice: Option<String>,
    pub float_width: FloatWidth,
    pub ambiguous_rules: AmbiguousRules,
    pub visualizer: VisualizerKind,
    pub config: Turtle2dConfig,
    /// A number for the anchor of the orientation, where one was chosen.
    pub anchor: Option<u32>,
}

pub struct ControlsModel {
    pub selected_preset: Option<usize>,
    pub preset_search: Seq<char>,
    pub source: Seq<char>,
    pub source_edit_token: u64,
    pub angle: Single,
    pub line_width_percent: u16,
    pub iterations: usize,
    pub iterations_input: Seq<char>,
    pub iterations_notice: Option<Seq<char>>,
    pub suggested_max_iterations: usize,
    pub seed_input: Seq<char>,
    pub seed_placeholder: Seq<char>,
    pub effective_seed: u64,
    pub seed_notice: Option<Seq<char>>,
    pub float_width: FloatWidth,
    pub ambiguous_rules: AmbiguousRules,
    pub visualizer: VisualizerKind,
    pub settings: Settings,
    pub anchor: Option<u32>,
}

impl Controls {
    /// What it stands for.
    #[verifier::opaque]
    pub open spec fn model(self) -> ControlsModel {
        ControlsModel {
            selected_preset: self.selected_preset,
            preset_search: self.preset_search@,
            source: self.source@,
            source_edit_token: self.source_edit_token,
            angle: self.angle,
            line_width_percent: self.line_width_percent,
            iterations: self.iterations,
            iterations_input: self.iterations_input@,
            iterations_notice: maybe_text(self.iterations_notice),
            suggested_max_iterations: self.suggested_max_iterations,
            seed_input: self.seed_input@,
            seed_placeholder: self.seed_placeholder@,
            effective_seed: self.effective_seed,
            seed_notice: maybe_text(self.seed_notice),
            float_width: self.float_width,
            ambiguous_rules: self.ambiguous_rules,
            visualizer: self.visualizer,
            settings: settings_of(self.config),
            anchor: self.anchor,
        }
    }
}

impl View for Controls {
    type V = ControlsModel;

    open spec fn view(&self) -> ControlsModel {
        self.model()
    }
}

/// The number that a text writes, up to a limit.
pub open spec fn number_up_to(text: Seq<char>, limit: int) -> Option<int> {
    match unsigned_value(text, 10) {
        Some(value) if value <= limit => Some(value),
        _ => None,
    }
}

/// An angle moved into the range from zero to 180 degrees.
pub open spec fn angle_within(angle: Single) -> Single {
    if angle.size() > crate::single::SINGLE_INFINITY_BITS {
        angle
    } else if angle.rank() < 0 {
        Single { bits: 0 }
    } else if angle.rank() > STRAIGHT_ANGLE_BITS {
        Single { bits: STRAIGHT_ANGLE_BITS }
    } else {
        angle
    }
}

pub fn clamp_angle(angle: Single) -> (r: Single)
    ensures
        r == angle_within(angle),
{
    let size: u32 = if angle.bits >= crate::single::SINGLE_SIGN_BIT {
        angle.bits - crate::single::SINGLE_SIGN_BIT
    } else {
        angle.bits
    };
    if size > crate::single::SINGLE_INFINITY_BITS {
        angle
    } else if angle.bits > crate::single::SINGLE_SIGN_BIT {
        Single { bits: 0 }
    } else if angle.bits < crate::single::SINGLE_SIGN_BIT && angle.bits > STRAIGHT_ANGLE_BITS {
        Single { bits: STRAIGHT_ANGLE_BITS }
    } else {
        angle
    }
}

/// Angles that are numbers stay between zero and 180 degrees.
pub proof fn angles_stay_in_range(angle: Single)
    requires
        angle.size() <= crate::single::SINGLE_INFINITY_BITS,
    ensures
        0 <= angle_within(angle).rank() <= STRAIGHT_ANGLE_BITS,
        angle_within(angle_within(angle)) == angle_within(angle),
{
}

impl ControlsModel {
    pub open spec fn identity(self) -> Identity {
        Identity {
            source: self.source,
            angle: self.angle,
            visualizer: self.visualizer,
            settings: self.settings,
            anchor: self.anchor,
            seed: self.effective_seed,
            float_width: self.float_width,
            ambiguous_rules: self.ambiguous_rules,
        }
    }

    /// The edits that came before are settled.
    pub open spec fn settled(self) -> ControlsModel {
        ControlsModel { source_edit_token: next_number(self.source_edit_token), ..self }
    }

    /// The settings are no longer those of a preset.
    pub open spec fn customized(self) -> ControlsModel {
        ControlsModel { selected_preset: None, ..self }
    }

    pub open spec fn with_iterations(self, iterations: usize) -> ControlsModel {
        ControlsModel {
            iterations,
            iterations_input: decimal(iterations as int),
            iterations_notice: None,
            ..self
        }
    }

    /// The settings after an iteration was typed, and whether they changed.
    pub open spec fn with_typed_iterations(self, input: Seq<char>) -> (ControlsModel, bool) {
        if input.len() == 0 {
            (
                ControlsModel { iterations_input: input, iterations_notice: None, ..self },
                false,
            )
        } else {
            match number_up_to(input, usize::MAX as int) {
                Some(iterations) => (
                    ControlsModel {
                        iterations: iterations as usize,
                        iterations_input: input,
                        iterations_notice: None,
                        ..self
                    }.customized(),
                    true,
                ),
                None => (
                    ControlsModel {
                        iterations_input: input,
                        iterations_notice: Some(
                            "Iterations must be a non-negative whole number"@,
                        ),
                        ..self
                    },
                    false,
                ),
            }
        }
    }

    /// The settings after a seed was typed, and whether to render them.
    pub open spec fn with_typed_seed(self, input: Seq<char>) -> (ControlsModel, bool) {
        if input.len() == 0 {
            (
                ControlsModel {
                    seed_input: input,
                    effective_seed: match number_up_to(self.seed_placeholder, u64::MAX as int) {
                        Some(seed) => seed as u64,
                        None => self.effective_seed,
                    },
                    seed_notice: None,
                    ..self
                },
                true,
            )
        } else {
            match number_up_to(input, u64::MAX as int) {
                Some(seed) => (
                    ControlsModel {
                        seed_input: input,
                        effective_seed: seed as u64,
                        seed_notice: None,
                        ..self
                    },
                    true,
                ),
                None => (
                    ControlsModel {
                        seed_input: input,
                        seed_notice: Some(
                            "Seed must be a decimal integer from 0 to 18446744073709551615"@,
                        ),
                        ..self
                    },
                    false,
                ),
            }
        }
    }

    /// A seed that chance has given, or the notice that there is none.
    pub open spec fn with_drawn_seed(self, seed: Result<u64, String>) -> ControlsModel {
        match seed {
            Ok(seed) => ControlsModel {
                effective_seed: seed,
                seed_input: Seq::empty(),
                seed_placeholder: decimal(seed as int),
                seed_notice: None,
                ..self
            },
            Err(error) => ControlsModel {
                seed_notice: Some(
                    "Could not generate a random seed; using "@ + decimal(
                        self.effective_seed as int,
                    ) + ": "@ + error@,
                ),
                ..self
            },
        }
    }

    pub open spec fn with_preset(
        self,
        index: usize,
        choice: PresetChoice,
        seed: Result<u64, String>,
    ) -> ControlsModel {
        ControlsModel {
            source: choice.source@,
            suggested_max_iterations: choice.max_iterations,
            visualizer: choice.visualizer,
            settings: settings_of(choice.config),
            anchor: choice.anchor,
            angle: choice.angle,
            selected_preset: Some(index),
            ..self.with_iterations(choice.iterations)
        }.with_drawn_seed(seed)
    }

    /// A percentage that is allowed.
    pub open spec fn allowed_percent(percent: u16) -> u16 {
        if percent < MIN_LINE_WIDTH_PERCENT {
            MIN_LINE_WIDTH_PERCENT
        } else if percent > MAX_LINE_WIDTH_PERCENT {
            MAX_LINE_WIDTH_PERCENT
        } else {
            percent
        }
    }
}

pub fn allow_percent(percent: u16) -> (r: u16)
    ensures
        r == ControlsModel::allowed_percent(percent),
{
    if percent < MIN_LINE_WIDTH_PERCENT {
        MIN_LINE_WIDTH_PERCENT
    } else if percent > MAX_LINE_WIDTH_PERCENT {
        MAX_LINE_WIDTH_PERCENT
    } else {
        percent
    }
}

/// The number that a text writes, up to a limit.
fn read_number(text: &str, limit: u64) -> (r: Option<u64>)
    ensures
        match r {
            Some(value) => number_up_to(text@, limit as int) == Some(value as int),
            None => number_up_to(text@, limit as int) is None,
        },
{
    let chars: Vec<char> = chars_of(text);
    parse_unsigned(chars.as_slice(), 10, limit)
}

fn is_empty(text: &str) -> (r: bool)
    ensures
        r == (text@.len() == 0),
{
    let empty: bool = crate::text::same_text(text, "");
    proof {
        reveal_strlit("");
        assert(text@.len() == 0 ==> text@ =~= ""@);
    }
    empty
}

impl Controls {
    pub fn identity(&self) -> (r: RenderIdentity)
        ensures
            r@ == self@.identity(),
    {
        proof {
            reveal(Controls::model);
        }
        RenderIdentity {
            source: self.source.clone(),
            angle: self.angle,
            visualizer: self.visualizer,
            config: copy_config(&self.config),
            anchor: self.anchor,
            seed: self.effective_seed,
            float_width: self.float_width,
            ambiguous_rules: self.ambiguous_rules,
        }
    }

    pub fn settle(&mut self)
        ensures
            final(self)@ == old(self)@.settled(),
    {
        proof {
            reveal(Controls::model);
        }
        self.source_edit_token = self.source_edit_token.wrapping_add(1);
    }

    pub fn set_iterations(&mut self, iterations: usize)
        ensures
            final(self)@ == old(self)@.with_iterations(iterations),
    {
        proof {
            reveal(Controls::model);
        }
        self.iterations = iterations;
        self.iterations_input = decimal_text(iterations as u128);
        self.iterations_notice = None;
    }

    pub fn type_iterations(&mut self, input: String) -> (r: bool)
        ensures
            (final(self)@, r) == old(self)@.with_typed_iterations(input@),
    {
        proof {
            reveal(Controls::model);
        }
        let empty: bool = is_empty(input.as_str());
        let number: Option<u64> = read_number(input.as_str(), usize::MAX as u64);
        self.iterations_input = input;
        if empty {
            self.iterations_notice = None;
            return false;
        }
        match number {
            Some(iterations) => {
                self.iterations = iterations as usize;
                self.iterations_notice = None;
                self.selected_preset = None;
                true
            },
            None => {
                self.iterations_notice = Some(
                    "Iterations must be a non-negative whole number".to_owned(),
                );
                false
            },
        }
    }

    pub fn type_seed(&mut self, input: String) -> (r: bool)
        ensures
            (final(self)@, r) == old(self)@.with_typed_seed(input@),
    {
        proof {
            reveal(Controls::model);
        }
        let empty: bool = is_empty(input.as_str());
        let number: Option<u64> = read_number(input.as_str(), u64::MAX);
        self.seed_input = input;
        if empty {
            match read_number(self.seed_placeholder.as_str(), u64::MAX) {
                Some(seed) => {
                    self.effective_seed = seed;
                },
                None => {},
            }
            self.seed_notice = None;
            return true;
        }
        match number {
            Some(seed) => {
                self.effective_seed = seed;
                self.seed_notice = None;
                true
            },
            None => {
                self.seed_notice = Some(
                    "Seed must be a decimal integer from 0 to 18446744073709551615".to_owned(),
                );
                false
            },
        }
    }

    /// Take a seed that chance has given.
    pub fn regenerate_seed(&mut self, seed: Result<u64, String>)
        ensures
            final(self)@ == old(self)@.with_drawn_seed(seed),
    {
        proof {
            reveal(Controls::model);
        }
        match seed {
            Ok(seed) => {
                self.effective_seed = seed;
                self.seed_input = String::new();
                assert(self.seed_input@ =~= Seq::empty());
                self.seed_placeholder = decimal_text(seed as u128);
                self.seed_notice = None;
            },
            Err(error) => {
                let mut notice: String = "Could not generate a random seed; using ".to_owned();
                push_decimal(&mut notice, self.effective_seed as u128);
                notice.append(": ");
                notice.append(error.as_str());
                self.seed_notice = Some(notice);
            },
        }
    }

    pub fn select_preset(
        &mut self,
        index: usize,
        choice: PresetChoice,
        seed: Result<u64, String>,
    )
        ensures
            final(self)@ == old(self)@.with_preset(index, choice, seed),
    {
        proof {
            reveal(Controls::model);
        }
        self.source = choice.source;
        self.set_iterations(choice.iterations);
        self.suggested_max_iterations = choice.max_iterations;
        self.visualizer = choice.visualizer;
        self.config = choice.config;
        self.anchor = choice.anchor;
        self.angle = choice.angle;
        self.selected_preset = Some(index);
        self.regenerate_seed(seed);
    }
}

/// What the last valid entry was stays in force while an entry is not valid.
pub proof fn invalid_entries_change_no_setting(controls: ControlsModel, input: Seq<char>)
    ensures
        ({
            let (next, changed) = controls.with_typed_iterations(input);
            !changed ==> next.iterations == controls.iterations && next.identity()
                == controls.identity()
        }),
        ({
            let (next, changed) = controls.with_typed_seed(input);
            !changed ==> next.effective_seed == controls.effective_seed && next.identity()
                == controls.identity()
        }),
{
}

} // verus!
