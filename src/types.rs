//! Users as a program keeps them.
use vstd::prelude::*;

verus! {

/// A user's gender, where known.
#[derive(Debug, Clone, Copy, PartialEq, Eq, Structural)]
pub enum Gender {
    Unknown,
    Male,
    Female,
}

/// A user as a program keeps it: name, age and gender.
#[derive(Debug)]
pub struct User {
    pub name: String,
    age: u8,
    pub(crate) gender: Gender,
}

impl View for User {
    type V = (Seq<char>, u8, Gender);

    /// Name, age and gender.
    closed spec fn view(&self) -> (Seq<char>, u8, Gender) {
        (self.name@, self.age, self.gender)
    }
}

impl User {
    /// A user with the given name, age and gender.
    pub fn new(name: String, age: u8, gender: Gender) -> (r: Self)
        ensures
            r@ == (name@, age, gender),
    {
        Self { name, age, gender }
    }

    /// The user's age.
    pub fn age(&self) -> (r: u8)
        ensures
            r == self@.1,
    {
        self.age
    }
}

impl Default for User {
    /// A user with no name, age 0 and unknown gender.
    fn default() -> (r: Self)
        ensures
            r@ == (Seq::<char>::empty(), 0u8, Gender::Unknown),
    {
        let r = Self::new(String::new(), 0, Gender::Unknown);
        assert(r@.0 =~= Seq::<char>::empty());
        r
    }
}

} // verus!
