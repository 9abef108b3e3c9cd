//! Calculated generations: modules with arguments, nested in branches.

use vstd::prelude::*;

use crate::number::Real;

verus! {

/// An argument of a module.
#[derive(Debug, Clone)]
pub enum Value {
    Number(Real),
    Boolean(bool),
    Text(String),
}

/// A named symbol with its arguments.
#[derive(Debug, Clone)]
pub struct Module {
    pub name: String,
    pub arguments: Vec<Value>,
}

impl Module {
    pub fn new(name: &str, arguments: Vec<Value>) -> (r: Module)
        ensures
            r.name@ == name@,
            r.arguments == arguments,
    {
        Module { name: name.to_owned(), arguments }
    }

    /// The first argument, when it is a number.
    pub open spec fn first_number(self) -> Option<Real> {
        if self.arguments@.len() > 0 {
            match self.arguments@[0] {
                Value::Number(number) => Some(number),
                _ => None,
            }
        } else {
            None
        }
    }

    pub fn number(&self) -> (r: Option<Real>)
        ensures
            r == self.first_number(),
    {
        if self.arguments.len() > 0 {
            match &self.arguments[0] {
                Value::Number(number) => Some(*number),
                _ => None,
            }
        } else {
            None
        }
    }
}

/// A sequence of modules and branches.
#[derive(Debug)]
pub struct Generation(pub Vec<GenerationItem>);

#[derive(Debug)]
pub enum GenerationItem {
    Module(Module),
    Branch(Generation),
}

impl Generation {
    pub fn items(&self) -> (r: &[GenerationItem])
        ensures
            r@ == self.0@,
    {
        self.0.as_slice()
    }
}

impl Default for Generation {
    fn default() -> (r: Self)
        ensures
            r.0@.len() == 0,
    {
        Generation(Vec::new())
    }
}

/// How many steps a traversal of some items takes: one for each item, and one
/// more to leave each branch.
pub open spec fn weight(items: Seq<GenerationItem>) -> nat
    decreases items,
{
    if items.len() == 0 {
        0
    } else {
        item_weight(items[0]) + weight(items.subrange(1, items.len() as int))
    }
}

pub open spec fn item_weight(item: GenerationItem) -> nat
    decreases item,
{
    match item {
        GenerationItem::Module(_) => 1,
        GenerationItem::Branch(branch) => 2 + weight(branch.0@),
    }
}

} // verus!
