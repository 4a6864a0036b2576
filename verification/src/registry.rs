//! The global registry of projects (`~/.rapstat/projects.toml`).
use vstd::prelude::*;
use crate::text::{push_str, str_eq};
use crate::timestamp::Timestamp;

verus! {

/// Whether `std::path::Path` considers the two paths equal (they have the
/// same components).
pub uninterp spec fn same_path(a: Seq<char>, b: Seq<char>) -> bool;

/// `Path::new(a) == Path::new(b)`. Claimed: the answer is a function of the two
/// texts alone, and equal texts name equal paths (`Path` is `Eq`, so its
/// equality is reflexive).
#[verifier::external_body]
fn std_path_eq(a: &str, b: &str) -> (r: bool)
    ensures
        r == same_path(a@, b@),
        a@ == b@ ==> r,
{
    std::path::Path::new(a) == std::path::Path::new(b)
}

/// A single entry in the global project registry.
#[derive(Clone, Debug, PartialEq, Eq)]
pub struct RegistryEntry {
    pub name: String,
    pub path: String,
    pub added_at: Timestamp,
}

/// The full registry.
#[derive(Debug, PartialEq, Eq)]
pub struct Registry {
    pub projects: Vec<RegistryEntry>,
}

/// Why a project could not be registered.
#[derive(Debug, PartialEq, Eq)]
pub enum RegistryError {
    /// An entry with the same name or path exists; its name and path.
    AlreadyRegistered { name: String, path: String },
}

/// The text of a registry error.
pub open spec fn error_text(e: RegistryError) -> Seq<char> {
    match e {
        RegistryError::AlreadyRegistered { name, path } => "project '"@ + name@ + "' at "@ + path@
            + " is already registered"@,
    }
}

impl RegistryError {
    /// The message that the error is reported with.
    pub fn message(&self) -> (r: String)
        ensures
            r@ == error_text(*self),
    {
        match self {
            RegistryError::AlreadyRegistered { name, path } => {
                let mut r = "project '".to_owned();
                push_str(&mut r, name.as_str());
                push_str(&mut r, "' at ");
                push_str(&mut r, path.as_str());
                push_str(&mut r, " is already registered");
                r
            },
        }
    }
}

/// `e` is registered under `name` or at `path`.
pub open spec fn clashes(e: RegistryEntry, name: Seq<char>, path: Seq<char>) -> bool {
    e.name@ == name || same_path(e.path@, path)
}

/// The first entry that is registered under `name` or at `path`.
pub open spec fn first_clash(s: Seq<RegistryEntry>, name: Seq<char>, path: Seq<char>) -> Option<int>
    decreases s.len(),
{
    if s.len() == 0 {
        None
    } else if clashes(s[0], name, path) {
        Some(0)
    } else {
        match first_clash(s.drop_first(), name, path) {
            Some(k) => Some(k + 1),
            None => None,
        }
    }
}

/// The entries not named `name`, in order.
pub open spec fn without_name(s: Seq<RegistryEntry>, name: Seq<char>) -> Seq<RegistryEntry>
    decreases s.len(),
{
    if s.len() == 0 {
        seq![]
    } else {
        without_name(s.drop_last(), name) + if s.last().name@ == name {
            seq![]
        } else {
            seq![s.last()]
        }
    }
}

/// No two entries share a name.
pub open spec fn names_unique(s: Seq<RegistryEntry>) -> bool {
    forall|i: int, j: int| 0 <= i < j < s.len() ==> s[i].name@ != s[j].name@
}

/// Some entry is named `name`.
pub open spec fn has_name(s: Seq<RegistryEntry>, name: Seq<char>) -> bool {
    exists|i: int| 0 <= i < s.len() && s[i].name@ == name
}

pub proof fn lemma_first_clash(s: Seq<RegistryEntry>, name: Seq<char>, path: Seq<char>)
    ensures
        first_clash(s, name, path) matches Some(k) ==> 0 <= k < s.len() && clashes(s[k], name, path)
            && forall|j: int| 0 <= j < k ==> !clashes(s[j], name, path),
        first_clash(s, name, path) is None ==> forall|j: int|
            0 <= j < s.len() ==> !clashes(s[j], name, path),
    decreases s.len(),
{
    if s.len() > 0 && !clashes(s[0], name, path) {
        lemma_first_clash(s.drop_first(), name, path);
        assert forall|j: int| 0 < j < s.len() implies s[j] == s.drop_first()[j - 1] by {}
    }
}

proof fn lemma_without_name(s: Seq<RegistryEntry>, name: Seq<char>)
    ensures
        !has_name(without_name(s, name), name),
        has_name(s, name) ==> without_name(s, name).len() < s.len(),
        !has_name(s, name) ==> without_name(s, name) == s,
        without_name(s, name).len() <= s.len(),
    decreases s.len(),
{
    if s.len() > 0 {
        let init = s.drop_last();
        lemma_without_name(init, name);
        let w = without_name(s, name);
        let wi = without_name(init, name);
        assert forall|i: int| 0 <= i < w.len() implies w[i].name@ != name by {
            if i < wi.len() {
                assert(w[i] == wi[i]);
            }
        }
        if has_name(s, name) && s.last().name@ != name {
            let i = choose|i: int| 0 <= i < s.len() && s[i].name@ == name;
            assert(init[i] == s[i]);
        }
        if !has_name(s, name) {
            assert forall|i: int| 0 <= i < init.len() implies init[i].name@ != name by {
                assert(init[i] == s[i]);
            }
            assert(s.last() == s[s.len() - 1]);
            assert(w =~= s);
        }
    }
}

impl Registry {
    /// An empty registry.
    pub fn new() -> (r: Registry)
        ensures
            r.projects@.len() == 0,
    {
        Registry { projects: Vec::new() }
    }

    /// Registers `name` at `path` (already made canonical), added at
    /// `added_at`. Refused when an entry has the same name or the same path:
    /// the error names the first such entry.
    pub fn add(&mut self, name: String, path: String, added_at: Timestamp) -> (r: Result<
        (),
        RegistryError,
    >)
        ensures
            r is Ok <==> first_clash(old(self).projects@, name@, path@) is None,
            r is Ok ==> final(self).projects@ == old(self).projects@.push(
                RegistryEntry { name, path, added_at },
            ),
            r is Ok ==> forall|j: int|
                0 <= j < old(self).projects@.len() ==> old(self).projects@[j].path@ != path@
                    && old(self).projects@[j].name@ != name@,
            r matches Err(RegistryError::AlreadyRegistered { name: n, path: p }) ==> {
                let k = first_clash(old(self).projects@, name@, path@)->0;
                &&& n@ == old(self).projects@[k].name@
                &&& p@ == old(self).projects@[k].path@
                &&& final(self).projects@ == old(self).projects@
            },
    {
        let ghost s = self.projects@;
        proof {
            lemma_first_clash(s, name@, path@);
        }
        let mut i: usize = 0;
        while i < self.projects.len()
            invariant
                i <= self.projects.len(),
                s == self.projects@,
                forall|j: int| 0 <= j < i ==> !clashes(s[j], name@, path@),
                forall|j: int| 0 <= j < i ==> s[j].path@ != path@ && s[j].name@ != name@,
            decreases self.projects.len() - i,
        {
            let e = &self.projects[i];
            if std_path_eq(e.path.as_str(), path.as_str()) || str_eq(e.name.as_str(), name.as_str()) {
                proof {
                    lemma_first_clash(s, name@, path@);
                    assert(clashes(s[i as int], name@, path@));
                }
                return Err(
                    RegistryError::AlreadyRegistered {
                        name: e.name.clone(),
                        path: e.path.clone(),
                    },
                );
            }
            i = i + 1;
        }
        proof {
            if let Some(k) = first_clash(s, name@, path@) {
                assert(!clashes(s[k], name@, path@));
            }
        }
        self.projects.push(RegistryEntry { name, path, added_at });
        Ok(())
    }

    /// Deregisters every entry named `name`; whether there was one.
    pub fn remove(&mut self, name: &str) -> (r: bool)
        ensures
            final(self).projects@ == without_name(old(self).projects@, name@),
            r == has_name(old(self).projects@, name@),
            !has_name(final(self).projects@, name@),
    {
        let ghost s = self.projects@;
        let mut rest: Vec<RegistryEntry> = Vec::new();
        std::mem::swap(&mut rest, &mut self.projects);
        let before = rest.len();
        let mut i: usize = 0;
        assert(s.skip(0) =~= s);
        assert(s.take(0) =~= Seq::<RegistryEntry>::empty());
        while rest.len() > 0
            invariant
                i + rest.len() == s.len(),
                s.len() == before,
                rest@ == s.skip(i as int),
                self.projects@ == without_name(s.take(i as int), name@),
            decreases rest.len(),
        {
            let e = rest.remove(0);
            proof {
                assert(s.take(i + 1).drop_last() =~= s.take(i as int));
                assert(s.take(i + 1).last() == e);
                assert(s.skip(i + 1) =~= s.skip(i as int).drop_first());
            }
            if !str_eq(e.name.as_str(), name) {
                let ghost b = self.projects@;
                self.projects.push(e);
                assert(self.projects@ =~= b + seq![e]);
            } else {
                assert(self.projects@ + seq![] =~= self.projects@);
            }
            i = i + 1;
        }
        assert(s.take(i as int) =~= s);
        proof {
            lemma_without_name(s, name@);
        }
        self.projects.len() < before
    }
}

/// A registry whose names are distinct keeps them distinct when a project is
/// added: `add` succeeds only under a name not yet registered.
pub proof fn lemma_add_keeps_names_unique(s: Seq<RegistryEntry>, e: RegistryEntry)
    requires
        names_unique(s),
        first_clash(s, e.name@, e.path@) is None,
    ensures
        names_unique(s.push(e)),
{
    lemma_first_clash(s, e.name@, e.path@);
    assert forall|i: int, j: int| 0 <= i < j < s.push(e).len() implies s.push(e)[i].name@ != s.push(
        e,
    )[j].name@ by {
        if j == s.len() {
            assert(!clashes(s[i], e.name@, e.path@));
        }
    }
}

/// Removing the name of a project just added gives back the registry as it
/// was before the addition.
pub proof fn lemma_remove_undoes_add(s: Seq<RegistryEntry>, e: RegistryEntry)
    requires
        first_clash(s, e.name@, e.path@) is None,
    ensures
        without_name(s.push(e), e.name@) == s,
{
    lemma_first_clash(s, e.name@, e.path@);
    assert(s.push(e).drop_last() =~= s);
    assert(!has_name(s, e.name@)) by {
        if has_name(s, e.name@) {
            let i = choose|i: int| 0 <= i < s.len() && s[i].name@ == e.name@;
            assert(clashes(s[i], e.name@, e.path@));
        }
    }
    lemma_without_name(s, e.name@);
    assert(without_name(s.push(e), e.name@) =~= without_name(s, e.name@) + seq![]);
}

} // verus!
