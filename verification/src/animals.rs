//! Animals that speak, and a value that holds either of two animals chosen
//! at execution time: a small model of a class with several
//! implementations offered through one type.
//!
//! What an animal says is returned as text; writing it out is left to the
//! caller.
use vstd::prelude::*;

verus! {

/// An animal, which has a cry.
pub trait Animal {
    /// The cry of this animal.
    spec fn cry(&self) -> Seq<char>;

    /// Returns the cry of this animal.
    fn cri(&self) -> (r: &'static str)
        ensures
            r@ == self.cry(),
    ;
}

/// A cat, which cries "Maou".
pub struct Chat {}

/// A dog, which cries "Ouaffe".
pub struct Chien {}

impl Animal for Chat {
    open spec fn cry(&self) -> Seq<char> {
        "Maou"@
    }

    fn cri(&self) -> (r: &'static str) {
        "Maou"
    }
}

impl Animal for Chien {
    open spec fn cry(&self) -> Seq<char> {
        "Ouaffe"@
    }

    fn cri(&self) -> (r: &'static str) {
        "Ouaffe"
    }
}

/// Every animal that [`AnimalJS`] can hold.
pub enum AnimalEnum {
    /// A cat.
    Chat(Chat),
    /// A dog.
    Chien(Chien),
}

/// An animal chosen at execution time, which dispatches the calls to the
/// animal it holds.
pub struct AnimalJS {
    animal_enum: AnimalEnum,
}

impl AnimalJS {
    /// The animal held.
    pub closed spec fn animal(&self) -> AnimalEnum {
        self.animal_enum
    }

    /// A cat for an even `val`, a dog for an odd one.
    pub fn new(val: i32) -> (r: AnimalJS)
        ensures
            r.animal() is Chat <==> val % 2 == 0,
            r.animal() is Chien <==> val % 2 != 0,
    {
        AnimalJS {
            animal_enum: if val % 2 == 0 {
                AnimalEnum::Chat(Chat {})
            } else {
                AnimalEnum::Chien(Chien {})
            },
        }
    }

    /// The cry of the animal held.
    pub fn cri(&self) -> (r: &'static str)
        ensures
            self.animal() matches AnimalEnum::Chat(c) ==> r@ == c.cry(),
            self.animal() matches AnimalEnum::Chien(c) ==> r@ == c.cry(),
    {
        match &self.animal_enum {
            AnimalEnum::Chat(chat) => chat.cri(),
            AnimalEnum::Chien(chien) => chien.cri(),
        }
    }
}

/// A cat, which speaks and can meow.
pub struct Cat {}

impl Cat {
    /// A new cat.
    pub fn new() -> (r: Cat) {
        Cat {}
    }

    /// What the cat says: "Meow".
    pub fn speak(&self) -> (r: String)
        ensures
            r@ == "Meow"@,
    {
        String::from_str("Meow")
    }

    /// How the cat meows: "- Ignores you -".
    pub fn meow(&self) -> (r: String)
        ensures
            r@ == "- Ignores you -"@,
    {
        String::from_str("- Ignores you -")
    }
}

/// A dog, which speaks and can play.
pub struct Dog {}

impl Dog {
    /// A new dog.
    pub fn new() -> (r: Dog) {
        Dog {}
    }

    /// What the dog says: "Woof".
    pub fn speak(&self) -> (r: String)
        ensures
            r@ == "Woof"@,
    {
        String::from_str("Woof")
    }

    /// How the dog plays: "Awesome !".
    pub fn play(&self) -> (r: String)
        ensures
            r@ == "Awesome !"@,
    {
        String::from_str("Awesome !")
    }
}

/// A pet handed out by [`get_a_new_pet`].
pub enum Pet {
    /// A cat.
    Cat(Cat),
    /// A dog.
    Dog(Dog),
}

/// The texts of a list of strings.
pub open spec fn texts(v: Seq<String>) -> Seq<Seq<char>> {
    v.map_values(|s: String| s@)
}

/// The pet named `name`: a cat for "Felix", a dog for "Milou", none for any
/// other name. Also returns the lines that the adoption writes to the log:
/// the cat's cry, the dog's bark, or "???" followed by the unknown name.
pub fn get_a_new_pet(name: String) -> (r: (Option<Pet>, Vec<String>))
    ensures
        name@ == "Felix"@ ==> (r.0 matches Some(Pet::Cat(_))) && texts(r.1@) == seq!["Maou"@],
        name@ != "Felix"@ && name@ == "Milou"@ ==> (r.0 matches Some(Pet::Dog(_))) && texts(r.1@)
            == seq!["wouf"@],
        name@ != "Felix"@ && name@ != "Milou"@ ==> r.0 is None && texts(r.1@) == seq![
            "???"@,
            name@,
        ],
{
    let mut log: Vec<String> = Vec::new();
    if name == String::from_str("Felix") {
        log.push(String::from_str("Maou"));
        proof {
            assert(texts(log@) =~= seq!["Maou"@]);
        }
        (Some(Pet::Cat(Cat::new())), log)
    } else if name == String::from_str("Milou") {
        log.push(String::from_str("wouf"));
        proof {
            assert(texts(log@) =~= seq!["wouf"@]);
        }
        (Some(Pet::Dog(Dog::new())), log)
    } else {
        log.push(String::from_str("???"));
        log.push(name);
        proof {
            assert(texts(log@) =~= seq!["???"@, name@]);
        }
        (None, log)
    }
}

} // verus!
