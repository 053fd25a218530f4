//! The animals and the sounds of the animal command.

use vstd::prelude::*;
use vstd::string::*;

verus! {

/// Errors of the commands.
#[derive(Debug)]
pub enum CommandError {
    /// The text names no component.
    ParseComponentError(String),
}

impl CommandError {
    /// The message shown to the user.
    pub fn to_string(&self) -> (text: String)
        ensures
            text@ == match *self {
                CommandError::ParseComponentError(word) => "Failed to parse "@ + word@
                    + " as a component"@,
            },
    {
        match self {
            CommandError::ParseComponentError(word) => {
                let mut text = "Failed to parse ".to_owned();
                text.append(word.as_str());
                text.append(" as a component");
                text
            },
        }
    }
}

/// Tells whether two texts are the same.
fn same(a: &str, b: &str) -> (equal: bool)
    ensures
        equal == (a@ == b@),
{
    a.to_owned() == b.to_owned()
}

/// An animal.
#[derive(Debug, Clone, Copy, PartialEq, Eq, Structural)]
pub enum Animal {
    Cat,
    Dog,
    Horse,
    Goat,
}

impl Animal {
    /// The name of the animal.
    pub open spec fn name(self) -> Seq<char> {
        match self {
            Animal::Cat => "cat"@,
            Animal::Dog => "dog"@,
            Animal::Horse => "horse"@,
            Animal::Goat => "goat"@,
        }
    }

    /// The name of the animal.
    pub fn to_string(&self) -> (text: String)
        ensures
            text@ == self.name(),
    {
        match self {
            Animal::Cat => "cat".to_owned(),
            Animal::Dog => "dog".to_owned(),
            Animal::Horse => "horse".to_owned(),
            Animal::Goat => "goat".to_owned(),
        }
    }

    /// The animal that `s` names, if it names one.
    pub open spec fn named(s: Seq<char>) -> Option<Animal> {
        if s == "cat"@ {
            Some(Animal::Cat)
        } else if s == "dog"@ {
            Some(Animal::Dog)
        } else if s == "horse"@ {
            Some(Animal::Horse)
        } else if s == "goat"@ {
            Some(Animal::Goat)
        } else {
            None
        }
    }

    /// The animal that `s` names.
    pub fn from_str(s: &str) -> (result: Result<Animal, CommandError>)
        ensures
            match result {
                Ok(animal) => Animal::named(s@) == Some(animal),
                Err(error) => {
                    &&& Animal::named(s@) is None
                    &&& error matches CommandError::ParseComponentError(word) && word@ == s@
                },
            },
    {
        if same(s, "cat") {
            Ok(Animal::Cat)
        } else if same(s, "dog") {
            Ok(Animal::Dog)
        } else if same(s, "horse") {
            Ok(Animal::Horse)
        } else if same(s, "goat") {
            Ok(Animal::Goat)
        } else {
            Err(CommandError::ParseComponentError(s.to_owned()))
        }
    }

    /// The emoji of the animal.
    pub fn emoji(&self) -> (emoji: char)
        ensures
            emoji == match *self {
                Animal::Cat => '\u{1F408}',
                Animal::Dog => '\u{1F415}',
                Animal::Horse => '\u{1F40E}',
                Animal::Goat => '\u{1F410}',
            },
    {
        match self {
            Animal::Cat => '\u{1F408}',
            Animal::Dog => '\u{1F415}',
            Animal::Horse => '\u{1F40E}',
            Animal::Goat => '\u{1F410}',
        }
    }
}

/// The sound of an animal.
#[derive(Debug, Clone, Copy, PartialEq, Eq, Structural)]
pub enum Sound {
    Meow,
    Woof,
    Neigh,
    Baaa,
}

impl Sound {
    /// The sound as it is written.
    pub open spec fn name(self) -> Seq<char> {
        match self {
            Sound::Meow => "meow"@,
            Sound::Woof => "woof"@,
            Sound::Neigh => "neigh"@,
            Sound::Baaa => "baaa"@,
        }
    }

    /// The sound that the text `s` of a button stands for, if it stands for
    /// one. The goat's has one letter more than its sound.
    pub open spec fn named(s: Seq<char>) -> Option<Sound> {
        if s == "meow"@ {
            Some(Sound::Meow)
        } else if s == "woof"@ {
            Some(Sound::Woof)
        } else if s == "neigh"@ {
            Some(Sound::Neigh)
        } else if s == "baaaa"@ {
            Some(Sound::Baaa)
        } else {
            None
        }
    }

    /// The animal that makes the sound.
    pub open spec fn animal(self) -> Animal {
        match self {
            Sound::Meow => Animal::Cat,
            Sound::Woof => Animal::Dog,
            Sound::Neigh => Animal::Horse,
            Sound::Baaa => Animal::Goat,
        }
    }

    /// The sound as it is written.
    pub fn to_string(&self) -> (text: String)
        ensures
            text@ == self.name(),
    {
        match self {
            Sound::Meow => "meow".to_owned(),
            Sound::Woof => "woof".to_owned(),
            Sound::Neigh => "neigh".to_owned(),
            Sound::Baaa => "baaa".to_owned(),
        }
    }

    /// The sound whose button sent `s`.
    pub fn from_str(s: &str) -> (result: Result<Sound, CommandError>)
        ensures
            match result {
                Ok(sound) => Sound::named(s@) == Some(sound),
                Err(error) => {
                    &&& Sound::named(s@) is None
                    &&& error matches CommandError::ParseComponentError(word) && word@ == s@
                },
            },
    {
        if same(s, "meow") {
            Ok(Sound::Meow)
        } else if same(s, "woof") {
            Ok(Sound::Woof)
        } else if same(s, "neigh") {
            Ok(Sound::Neigh)
        } else if same(s, "baaaa") {
            Ok(Sound::Baaa)
        } else {
            Err(CommandError::ParseComponentError(s.to_owned()))
        }
    }

    /// The emoji of the animal that makes the sound.
    pub fn emoji(&self) -> (emoji: char)
        ensures
            emoji == match self.animal() {
                Animal::Cat => '\u{1F408}',
                Animal::Dog => '\u{1F415}',
                Animal::Horse => '\u{1F40E}',
                Animal::Goat => '\u{1F410}',
            },
    {
        match self {
            Sound::Meow => Animal::Cat.emoji(),
            Sound::Woof => Animal::Dog.emoji(),
            Sound::Neigh => Animal::Horse.emoji(),
            Sound::Baaa => Animal::Goat.emoji(),
        }
    }
}

} // verus!
