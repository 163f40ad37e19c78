//! The registry: the ordered collection of declared flags.

use vstd::prelude::*;
use crate::flag::{is_boolean, negation, Flag};
use crate::value::FlagValue;

verus! {

/// A character allowed in a flag name.
pub open spec fn name_char(c: char) -> bool {
    ('a' <= c && c <= 'z') || ('A' <= c && c <= 'Z') || ('0' <= c && c <= '9') || c == '_'
        || c == '-'
}

/// A flag name: two or more letters, digits, `_` or `-`, not starting with `-`.
pub open spec fn valid_name(n: Seq<char>) -> bool {
    n.len() >= 2 && n[0] != '-' && forall|i: int| 0 <= i < n.len() ==> name_char(#[trigger] n[i])
}

/// The names of the built-in options.
pub open spec fn reserved(n: Seq<char>) -> bool {
    n == seq!['h', 'e', 'l', 'p'] || n == seq!['v', 'e', 'r', 's', 'i', 'o', 'n']
}

/// A flag that can be declared at all.
pub open spec fn admissible(f: Flag) -> bool {
    valid_name(f.name@) && !reserved(f.name@)
}

/// Two flags that would share a long option: the same name, or the name of
/// one is the negation of the other, boolean, one.
pub open spec fn clash(a: Flag, b: Flag) -> bool {
    a.name@ == b.name@ || (is_boolean(b) && a.name@ == negation(b.name@)) || (is_boolean(a)
        && negation(a.name@) == b.name@)
}

/// Flags whose long options are all distinct and whose names are admissible.
pub open spec fn well_formed(fs: Seq<Flag>) -> bool {
    &&& forall|i: int| 0 <= i < fs.len() ==> admissible(#[trigger] fs[i])
    &&& forall|i: int, j: int|
        0 <= i < fs.len() && 0 <= j < fs.len() && i != j ==> !clash(#[trigger] fs[i], #[trigger] fs[j])
}

/// Whether `f` clashes with none of `fs`.
pub open spec fn fits(fs: Seq<Flag>, f: Flag) -> bool {
    forall|i: int| 0 <= i < fs.len() ==> !clash(#[trigger] fs[i], f)
}

/// Why a flag could not be registered.
#[derive(Clone, Debug)]
pub enum RegistryError {
    /// The name is not a valid flag name, or is that of a built-in option.
    InvalidName(String),
    /// The flag would share a long option with one already registered.
    DuplicateName(String),
}

/// The declared flags, in the order of their registration.
pub struct Registry {
    flags: Vec<Flag>,
}

impl View for Registry {
    type V = Seq<Flag>;

    closed spec fn view(&self) -> Seq<Flag> {
        self.flags@
    }
}

fn name_is_valid(n: &str) -> (r: bool)
    ensures
        r == valid_name(n@),
{
    let len = n.unicode_len();
    if len < 2 || n.get_char(0) == '-' {
        return false;
    }
    let mut i: usize = 0;
    while i < len
        invariant
            len == n@.len(),
            i <= len,
            forall|k: int| 0 <= k < i ==> name_char(#[trigger] n@[k]),
        decreases len - i,
    {
        let c = n.get_char(i);
        if !(('a' <= c && c <= 'z') || ('A' <= c && c <= 'Z') || ('0' <= c && c <= '9') || c
            == '_' || c == '-') {
            return false;
        }
        i = i + 1;
    }
    true
}

fn name_is_reserved(n: &String) -> (r: bool)
    ensures
        r == reserved(n@),
{
    let help = String::from_str("help");
    let version = String::from_str("version");
    proof {
        reveal_strlit("help");
        reveal_strlit("version");
        assert(help@ =~= seq!['h', 'e', 'l', 'p']);
        assert(version@ =~= seq!['v', 'e', 'r', 's', 'i', 'o', 'n']);
    }
    *n == help || *n == version
}

pub(crate) fn negation_of(n: &String) -> (r: String)
    ensures
        r@ == negation(n@),
{
    proof {
        reveal_strlit("no");
    }
    let mut r = String::from_str("no");
    r.append(n.as_str());
    r
}

fn clashes(a: &Flag, b: &Flag) -> (r: bool)
    ensures
        r == clash(*a, *b),
{
    if a.name == b.name {
        return true;
    }
    if b.is_boolean() && a.name == negation_of(&b.name) {
        return true;
    }
    a.is_boolean() && negation_of(&a.name) == b.name
}

impl Registry {
    #[verifier::type_invariant]
    spec fn inv(&self) -> bool {
        well_formed(self.flags@)
    }

    /// An empty registry.
    pub fn new() -> (r: Registry)
        ensures
            r@ == Seq::<Flag>::empty(),
    {
        Registry { flags: Vec::new() }
    }

    /// Appends a flag, unless its name is invalid or reserved, or it would
    /// share a long option with a flag already registered.
    pub fn register(&mut self, flag: Flag) -> (r: Result<(), RegistryError>)
        ensures
            r is Ok <==> admissible(flag) && fits(old(self)@, flag),
            r is Ok ==> final(self)@ == old(self)@.push(flag),
            r is Err ==> final(self)@ == old(self)@,
            r matches Err(RegistryError::InvalidName(n)) ==> !admissible(flag) && n@ == flag.name@,
            r matches Err(RegistryError::DuplicateName(n)) ==> admissible(flag) && n@
                == flag.name@,
    {
        proof {
            use_type_invariant(&*self);
        }
        if !name_is_valid(flag.name.as_str()) || name_is_reserved(&flag.name) {
            return Err(RegistryError::InvalidName(flag.name.clone()));
        }
        let mut i: usize = 0;
        while i < self.flags.len()
            invariant
                i <= self.flags@.len(),
                admissible(flag),
                forall|k: int| 0 <= k < i ==> !clash(#[trigger] self.flags@[k], flag),
            decreases self.flags@.len() - i,
        {
            if clashes(&self.flags[i], &flag) {
                return Err(RegistryError::DuplicateName(flag.name.clone()));
            }
            i = i + 1;
        }
        let mut flags: Vec<Flag> = Vec::new();
        core::mem::swap(&mut flags, &mut self.flags);
        proof {
            let fs = flags@.push(flag);
            assert forall|i: int, j: int|
                0 <= i < fs.len() && 0 <= j < fs.len() && i != j implies !clash(
                #[trigger] fs[i],
                #[trigger] fs[j],
            ) by {
                if j == fs.len() - 1 {
                    assert(!clash(flags@[i], flag));
                } else if i == fs.len() - 1 {
                    assert(!clash(flags@[j], flag));
                }
            }
        }
        flags.push(flag);
        core::mem::swap(&mut flags, &mut self.flags);
        Ok(())
    }

    /// Every registered flag, in registration order; their long options are
    /// all distinct.
    pub fn all(&self) -> (r: &Vec<Flag>)
        ensures
            r@ == self@,
            well_formed(self@),
    {
        proof {
            use_type_invariant(self);
        }
        &self.flags
    }

    /// The registered flag with the given name, if any.
    pub fn find(&self, name: &str) -> (r: Option<&Flag>)
        ensures
            r is None <==> forall|i: int| 0 <= i < self@.len() ==> #[trigger] self@[i].name@ != name@,
            r matches Some(f) ==> exists|i: int| 0 <= i < self@.len() && self@[i] == *f && f.name@ == name@,
    {
        let wanted = String::from_str(name);
        let mut i: usize = 0;
        while i < self.flags.len()
            invariant
                i <= self.flags@.len(),
                wanted@ == name@,
                forall|k: int| 0 <= k < i ==> #[trigger] self.flags@[k].name@ != name@,
            decreases self.flags@.len() - i,
        {
            if self.flags[i].name == wanted {
                return Some(&self.flags[i]);
            }
            i = i + 1;
        }
        None
    }

    /// Writes the given values into the flags' parsed slots, one per flag,
    /// in registration order; everything else stays as it was.
    pub(crate) fn record(&mut self, values: &Vec<Option<FlagValue>>)
        requires
            values@.len() == old(self)@.len(),
        ensures
            final(self)@.len() == old(self)@.len(),
            forall|i: int|
                0 <= i < old(self)@.len() ==> (#[trigger] final(self)@[i]).name == old(self)@[i].name
                    && final(self)@[i].description == old(self)@[i].description
                    && final(self)@[i].default_value == old(self)@[i].default_value
                    && final(self)@[i].parsed_value == values@[i],
    {
        proof {
            use_type_invariant(&*self);
        }
        let mut flags: Vec<Flag> = Vec::new();
        core::mem::swap(&mut flags, &mut self.flags);
        let ghost old_flags = flags@;
        let mut updated: Vec<Flag> = Vec::new();
        let mut i: usize = 0;
        while i < flags.len()
            invariant
                flags@ == old_flags,
                values@.len() == old_flags.len(),
                i <= old_flags.len(),
                updated@.len() == i,
                forall|k: int|
                    0 <= k < i ==> (#[trigger] updated@[k]).name == old_flags[k].name
                        && updated@[k].description == old_flags[k].description
                        && updated@[k].default_value == old_flags[k].default_value
                        && updated@[k].parsed_value == values@[k],
            decreases old_flags.len() - i,
        {
            let f = &flags[i];
            let parsed = match &values[i] {
                Some(v) => Some(v.duplicate()),
                None => None,
            };
            updated.push(
                Flag {
                    name: f.name.clone(),
                    description: f.description.clone(),
                    default_value: f.default_value.duplicate(),
                    parsed_value: parsed,
                },
            );
            i = i + 1;
        }
        proof {
            let fs = updated@;
            assert forall|i: int| 0 <= i < fs.len() implies admissible(#[trigger] fs[i]) by {
                assert(admissible(old_flags[i]));
            }
            assert forall|i: int, j: int|
                0 <= i < fs.len() && 0 <= j < fs.len() && i != j implies !clash(
                #[trigger] fs[i],
                #[trigger] fs[j],
            ) by {
                assert(!clash(old_flags[i], old_flags[j]));
            }
        }
        core::mem::swap(&mut updated, &mut self.flags);
    }
}

}
