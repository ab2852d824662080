use vstd::prelude::*;

verus! {

/// A name and the descriptions of a game object.
#[derive(Debug)]
pub struct Information {
    name: &'static str,
    descriptions: Vec<&'static str>,
    description_current: usize,
}

impl Information {
    /// The name.
    pub closed spec fn name(&self) -> &'static str {
        self.name
    }

    /// The descriptions.
    pub closed spec fn descriptions(&self) -> Seq<&'static str> {
        self.descriptions@
    }

    /// The index of the description shown.
    pub closed spec fn current(&self) -> int {
        self.description_current as int
    }

    /// Creates the information, showing the first description.
    pub fn new(name: &'static str, descriptions: Vec<&'static str>) -> (information: Self)
        ensures
            information.name() == name,
            information.descriptions() == descriptions@,
            information.current() == 0,
    {
        Self { name, descriptions, description_current: 0 }
    }

    /// Gets the name.
    pub fn get_name(&self) -> (name: &str)
        ensures
            name == self.name(),
    {
        self.name
    }

    /// Gets the description shown; it requires one to exist.
    pub fn get_description(&self) -> (description: &str)
        requires
            0 <= self.current() < self.descriptions().len(),
        ensures
            description == self.descriptions()[self.current()],
    {
        self.descriptions[self.description_current]
    }
}

impl Default for Information {
    fn default() -> (information: Self)
        ensures
            information.name() == "",
            information.descriptions() == seq![""],
            information.current() == 0,
    {
        let mut descriptions: Vec<&'static str> = Vec::new();
        descriptions.push("");
        Self { name: "", descriptions, description_current: 0 }
    }
}

} // verus!
