use vstd::prelude::*;

verus! {

pub const DOG_HEAD_RIGHT: &'static str = r#"
         (\
        (\_\_^__o
 ___     `-'/ `_/
'`--\______/  |
    /         |
  -`/.------'\^-'
"#;

pub const DOG_HEAD_LEFT: &'static str = r#"
      /)
o__^^/_/)
 \ ' \`-'     ___
  `|  \______/--'`
   |         \
 ././-------,.\
"#;

/// The animals that have an ASCII-art picture.
#[derive(Clone, Copy, Debug, PartialEq, Eq, Structural)]
pub enum Animal {
    DogHeadRight,
    DogHeadLeft,
}

impl Animal {
    /// The picture of the animal.
    pub fn tmpl_str(&self) -> (r: &'static str)
        ensures
            r@ == (match self {
                Animal::DogHeadRight => DOG_HEAD_RIGHT@,
                Animal::DogHeadLeft => DOG_HEAD_LEFT@,
            }),
    {
        match self {
            Animal::DogHeadRight => DOG_HEAD_RIGHT,
            Animal::DogHeadLeft => DOG_HEAD_LEFT,
        }
    }
}

} // verus!
