//! Participant names and credentials.
use vstd::prelude::*;
use vstd::string::StringExecFns;

verus! {

/// The name of a participant (a team) in the game.
#[derive(Clone, Debug)]
pub struct PlayerName(String);

impl View for PlayerName {
    type V = Seq<char>;

    closed spec fn view(&self) -> Seq<char> {
        self.0@
    }
}

impl PlayerName {
    pub fn new(value: &str) -> (r: PlayerName)
        ensures
            r@ == value@,
    {
        PlayerName(String::from_str(value))
    }

    pub fn as_str(&self) -> (r: &str)
        ensures
            r@ == self@,
    {
        self.0.as_str()
    }

    /// A second name with the same characters.
    pub fn duplicate(&self) -> (r: PlayerName)
        ensures
            r@ == self@,
    {
        PlayerName(self.0.clone())
    }

    /// Name equality.
    pub fn same(&self, other: &PlayerName) -> (r: bool)
        ensures
            r == (self@ == other@),
    {
        self.0 == other.0
    }
}

impl PartialEq for PlayerName {
    fn eq(&self, other: &PlayerName) -> (r: bool) {
        self.same(other)
    }
}

impl vstd::std_specs::cmp::PartialEqSpecImpl for PlayerName {
    open spec fn obeys_eq_spec() -> bool {
        true
    }

    open spec fn eq_spec(&self, other: &PlayerName) -> bool {
        self@ == other@
    }
}

impl Eq for PlayerName {

}

/// The secret with which a participant signs in.
#[derive(Clone, Debug)]
pub struct Password(String);

impl View for Password {
    type V = Seq<char>;

    closed spec fn view(&self) -> Seq<char> {
        self.0@
    }
}

impl Password {
    pub fn new(value: &str) -> (r: Password)
        ensures
            r@ == value@,
    {
        Password(String::from_str(value))
    }

    pub fn as_str(&self) -> (r: &str)
        ensures
            r@ == self@,
    {
        self.0.as_str()
    }
}

} // verus!
