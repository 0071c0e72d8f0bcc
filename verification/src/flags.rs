//! Command-line flags: telling flags and their values from the other
//! arguments.

use vstd::prelude::*;
use crate::text::{clone_option, option_view, string_views};

verus! {

/// A flag that the command line may hold.
#[derive(Debug)]
pub struct Flag {
    pub name: String,
    /// Whether the argument behind the flag is its value.
    pub takes_value: bool,
    /// Whether the command line held the flag.
    pub triggered: bool,
    pub value: Option<String>,
}

/// The mathematical value of a [`Flag`].
pub ghost struct FlagView {
    pub name: Seq<char>,
    pub takes_value: bool,
    pub triggered: bool,
    pub value: Option<Seq<char>>,
}

impl View for Flag {
    type V = FlagView;

    open spec fn view(&self) -> FlagView {
        FlagView {
            name: self.name@,
            takes_value: self.takes_value,
            triggered: self.triggered,
            value: option_view(self.value),
        }
    }
}

/// The views of a list of flags, in order.
pub open spec fn flag_views(flags: Seq<Flag>) -> Seq<FlagView> {
    flags.map_values(|f: Flag| f@)
}

/// The index of the first flag named `name`.
pub open spec fn flag_index(flags: Seq<FlagView>, name: Seq<char>) -> Option<int>
    decreases flags.len(),
{
    if flags.len() == 0 {
        None
    } else {
        match flag_index(flags.drop_last(), name) {
            Some(i) => Some(i),
            None => if flags.last().name == name {
                Some(flags.len() - 1)
            } else {
                None
            },
        }
    }
}

/// `flag_index` gives the first index with the name, if there is one.
pub proof fn lemma_flag_index(flags: Seq<FlagView>, name: Seq<char>)
    ensures
        match flag_index(flags, name) {
            Some(i) => 0 <= i < flags.len() && flags[i].name == name && forall|j: int|
                0 <= j < i ==> (#[trigger] flags[j]).name != name,
            None => forall|j: int| 0 <= j < flags.len() ==> (#[trigger] flags[j]).name != name,
        },
    decreases flags.len(),
{
    if flags.len() > 0 {
        let front = flags.drop_last();
        lemma_flag_index(front, name);
        match flag_index(front, name) {
            Some(i) => {
                assert(front[i] == flags[i]);
                assert forall|j: int| 0 <= j < i implies (#[trigger] flags[j]).name != name by {
                    assert(front[j] == flags[j]);
                }
            },
            None => {
                assert forall|j: int| 0 <= j < front.len() implies (#[trigger] flags[j]).name
                    != name by {
                    assert(front[j] == flags[j]);
                }
            },
        }
    }
}

/// Where a reading of the command line stands: the flags as marked so
/// far, the arguments that are no flags, and the flag that waits for its
/// value.
pub ghost struct Scan {
    pub flags: Seq<FlagView>,
    pub positional: Seq<Seq<char>>,
    pub pending: Option<int>,
}

/// The reading after one more argument. An argument behind a flag that
/// takes a value is that value; one that names a flag marks the flag;
/// any other is kept as it is.
pub open spec fn scan_step(scan: Scan, argument: Seq<char>) -> Scan {
    match scan.pending {
        Some(k) => Scan {
            flags: scan.flags.update(k, FlagView { value: Some(argument), ..scan.flags[k] }),
            pending: None,
            ..scan
        },
        None => match flag_index(scan.flags, argument) {
            Some(k) => Scan {
                flags: scan.flags.update(k, FlagView { triggered: true, ..scan.flags[k] }),
                pending: if scan.flags[k].takes_value {
                    Some(k)
                } else {
                    None
                },
                ..scan
            },
            None => Scan { positional: scan.positional.push(argument), ..scan },
        },
    }
}

/// The reading after all of `arguments`, from left to right.
pub open spec fn scanned(scan: Scan, arguments: Seq<Seq<char>>) -> Scan
    decreases arguments.len(),
{
    if arguments.len() == 0 {
        scan
    } else {
        scan_step(scanned(scan, arguments.drop_last()), arguments.last())
    }
}

/// The flags that a program knows.
#[derive(Debug)]
pub struct FlagRegistry {
    pub flags: Vec<Flag>,
}

impl View for FlagRegistry {
    type V = Seq<FlagView>;

    open spec fn view(&self) -> Seq<FlagView> {
        flag_views(self.flags@)
    }
}

impl FlagRegistry {
    /// A registry without flags.
    pub fn new() -> (registry: FlagRegistry)
        ensures
            registry@ == Seq::<FlagView>::empty(),
    {
        let registry = FlagRegistry { flags: Vec::new() };
        assert(registry@ =~= Seq::<FlagView>::empty());
        registry
    }

    /// Makes the flag `name` known; at first it is neither triggered nor
    /// has it a value.
    pub fn register(&mut self, name: &str, takes_value: bool)
        ensures
            final(self)@ == old(self)@.push(
                FlagView { name: name@, takes_value, triggered: false, value: None },
            ),
    {
        let ghost before = self@;
        let flag = Flag { name: String::from_str(name), takes_value, triggered: false, value: None };
        self.flags.push(flag);
        assert(self@ =~= before.push(flag@));
    }

    /// The index of the first flag named `name`.
    pub fn find(&self, name: &String) -> (found: Option<usize>)
        ensures
            match found {
                Some(i) => flag_index(self@, name@) == Some(i as int) && i < self.flags@.len(),
                None => flag_index(self@, name@) is None,
            },
    {
        let mut i: usize = 0;
        while i < self.flags.len()
            invariant
                i <= self.flags.len(),
                forall|j: int| 0 <= j < i ==> (#[trigger] self@[j]).name != name@,
            decreases self.flags.len() - i,
        {
            if self.flags[i].name == *name {
                proof {
                    assert(self@[i as int].name == name@);
                    lemma_flag_index(self@, name@);
                }
                return Some(i);
            }
            i = i + 1;
        }
        proof {
            lemma_flag_index(self@, name@);
        }
        None
    }

    /// Reads the command line: marks the flags it holds, keeps their
    /// values, and gives back the arguments that are neither.
    pub fn parse(&mut self, arguments: &Vec<String>) -> (positional: Vec<String>)
        ensures
            final(self)@ == scanned(
                Scan { flags: old(self)@, positional: Seq::empty(), pending: None },
                string_views(arguments@),
            ).flags,
            string_views(positional@) == scanned(
                Scan { flags: old(self)@, positional: Seq::empty(), pending: None },
                string_views(arguments@),
            ).positional,
    {
        let ghost start = Scan { flags: self@, positional: Seq::empty(), pending: None };
        let ghost words = string_views(arguments@);
        let mut positional: Vec<String> = Vec::new();
        let mut pending: Option<usize> = None;
        let mut i: usize = 0;
        assert(words.take(0) =~= Seq::<Seq<char>>::empty());
        assert(string_views(positional@) =~= Seq::<Seq<char>>::empty());
        while i < arguments.len()
            invariant
                i <= arguments.len(),
                words == string_views(arguments@),
                start == (Scan { flags: old(self)@, positional: Seq::empty(), pending: None }),
                self@.len() == start.flags.len(),
                match pending {
                    Some(k) => k < self.flags@.len(),
                    None => true,
                },
                scanned(start, words.take(i as int)) == (Scan {
                    flags: self@,
                    positional: string_views(positional@),
                    pending: match pending {
                        Some(k) => Some(k as int),
                        None => None,
                    },
                }),
            decreases arguments.len() - i,
        {
            let argument = &arguments[i];
            let ghost before = self@;
            let ghost kept = string_views(positional@);
            proof {
                assert(words.take(i + 1).drop_last() =~= words.take(i as int));
                assert(words.take(i + 1).last() == argument@);
            }
            match pending {
                Some(k) => {
                    let flag = Flag {
                        name: self.flags[k].name.clone(),
                        takes_value: self.flags[k].takes_value,
                        triggered: self.flags[k].triggered,
                        value: Some(argument.clone()),
                    };
                    self.flags.set(k, flag);
                    assert(self@ =~= before.update(
                        k as int,
                        FlagView { value: Some(argument@), ..before[k as int] },
                    ));
                    pending = None;
                },
                None => match self.find(argument) {
                    Some(k) => {
                        let flag = Flag {
                            name: self.flags[k].name.clone(),
                            takes_value: self.flags[k].takes_value,
                            triggered: true,
                            value: clone_option(&self.flags[k].value),
                        };
                        if self.flags[k].takes_value {
                            pending = Some(k);
                        }
                        self.flags.set(k, flag);
                        assert(self@ =~= before.update(
                            k as int,
                            FlagView { triggered: true, ..before[k as int] },
                        ));
                    },
                    None => {
                        positional.push(argument.clone());
                        assert(string_views(positional@) =~= kept.push(argument@));
                    },
                },
            }
            i = i + 1;
        }
        assert(words.take(i as int) =~= words);
        positional
    }

    /// Whether the command line held the flag `name`.
    pub fn flag_triggered(&self, name: &str) -> (triggered: bool)
        ensures
            triggered == match flag_index(self@, name@) {
                Some(i) => self@[i].triggered,
                None => false,
            },
    {
        match self.find(&String::from_str(name)) {
            Some(i) => {
                assert(self@[i as int] == self.flags@[i as int]@);
                self.flags[i].triggered
            },
            None => false,
        }
    }

    /// The flag `name`, if it is known.
    pub fn get_flag(&self, name: &str) -> (flag: Option<&Flag>)
        ensures
            match flag_index(self@, name@) {
                Some(i) => flag matches Some(f) && f@ == self@[i],
                None => flag is None,
            },
    {
        match self.find(&String::from_str(name)) {
            Some(i) => {
                assert(self@[i as int] == self.flags@[i as int]@);
                Some(&self.flags[i])
            },
            None => None,
        }
    }
}

} // verus!
