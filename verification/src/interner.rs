//! The table of variable names.
//!
//! Every name gets the next free index the first time it is seen. Local and
//! global names are kept apart but draw their indices from one counter, so
//! an index is the place of a variable in the chip's variable table. Names
//! are compared in lower case.

use vstd::prelude::*;

verus! {

/// The lower-case form of a text, as `str::to_lowercase` gives it.
pub uninterp spec fn lowercase(s: Seq<char>) -> Seq<char>;

/// `str::to_lowercase`.
#[verifier::external_body]
fn lowercase_of(s: &str) -> (r: String)
    ensures
        r@ == lowercase(s@),
{
    s.to_lowercase()
}

/// A name of the table: its lower-case text and whether it is a global.
pub struct Name {
    pub text: String,
    pub global: bool,
}

/// A table of names as pairs of text and kind, each at its index.
pub type Names = Seq<(Seq<char>, bool)>;

/// The first index at or after `from` that holds the name, if there is one.
pub open spec fn find_from(names: Names, text: Seq<char>, global: bool, from: int) -> Option<int>
    decreases names.len() - from,
{
    if from < 0 || from >= names.len() {
        None
    } else if names[from] == (text, global) {
        Some(from)
    } else {
        find_from(names, text, global, from + 1)
    }
}

/// The index of the name in the table, if it has one.
pub open spec fn find(names: Names, text: Seq<char>, global: bool) -> Option<int> {
    find_from(names, text, global, 0)
}

/// The table after the name was asked for, and the name's index: the one it
/// had, or the next free one.
pub open spec fn intern(names: Names, text: Seq<char>, global: bool) -> (Names, int) {
    match find(names, text, global) {
        Some(i) => (names, i),
        None => (names.push((text, global)), names.len() as int),
    }
}

/// What is found lies in the table, holds the name, and is the first to.
pub proof fn lemma_find_from(names: Names, text: Seq<char>, global: bool, from: int)
    requires
        0 <= from,
    ensures
        match find_from(names, text, global, from) {
            Some(i) => from <= i < names.len() && names[i] == (text, global) && forall|j: int|
                from <= j < i ==> names[j] != (text, global),
            None => forall|j: int| from <= j < names.len() ==> names[j] != (text, global),
        },
    decreases names.len() - from,
{
    if from < names.len() && names[from] != (text, global) {
        lemma_find_from(names, text, global, from + 1);
    }
}

/// No name stands twice in the table.
pub open spec fn distinct(names: Names) -> bool {
    forall|i: int, j: int| 0 <= i < j < names.len() ==> names[i] != names[j]
}

/// Asking for a name gives an index inside the new table, which is no
/// shorter than the old one.
pub proof fn lemma_intern_grows(names: Names, text: Seq<char>, global: bool)
    ensures
        0 <= intern(names, text, global).1 < intern(names, text, global).0.len(),
        names.len() <= intern(names, text, global).0.len(),
{
    lemma_find_from(names, text, global, 0);
}

/// Asking for a name keeps every index that was given out, gives an index
/// inside the new table, and keeps the names distinct.
pub proof fn lemma_intern(names: Names, text: Seq<char>, global: bool)
    requires
        distinct(names),
    ensures
        ({
            let (after, index) = intern(names, text, global);
            &&& 0 <= index < after.len()
            &&& after[index] == (text, global)
            &&& names.len() <= after.len() <= names.len() + 1
            &&& after.subrange(0, names.len() as int) == names
            &&& distinct(after)
        }),
{
    lemma_find_from(names, text, global, 0);
    let (after, index) = intern(names, text, global);
    assert(after.subrange(0, names.len() as int) =~= names);
}

/// Asking twice gives the same index and changes nothing the second time.
pub proof fn lemma_intern_again(names: Names, text: Seq<char>, global: bool)
    ensures
        ({
            let (after, index) = intern(names, text, global);
            intern(after, text, global) == (after, index)
        }),
{
    lemma_find_from(names, text, global, 0);
    let (after, index) = intern(names, text, global);
    lemma_find_from(after, text, global, 0);
    if find(names, text, global) is None {
        assert(after[names.len() as int] == (text, global));
        assert forall|j: int| 0 <= j < names.len() implies after[j] != (text, global) by {
            assert(after[j] == names[j]);
        }
    }
}

/// The table of variable names of one chip.
pub struct Interner {
    names: Vec<Name>,
}

impl View for Interner {
    type V = Names;

    closed spec fn view(&self) -> Names {
        Seq::new(self.names.len() as nat, |i: int| (self.names[i].text@, self.names[i].global))
    }
}

impl Interner {
    /// The empty table.
    pub fn new() -> (r: Interner)
        ensures
            r@ == Seq::<(Seq<char>, bool)>::empty(),
    {
        let r = Interner { names: Vec::new() };
        assert(r@ =~= Seq::<(Seq<char>, bool)>::empty());
        r
    }

    /// The number of names, which is the next free index.
    pub fn count(&self) -> (n: usize)
        ensures
            n == self@.len(),
    {
        self.names.len()
    }

    /// Whether the name at `index` is a global.
    pub fn is_global(&self, index: usize) -> (r: bool)
        requires
            index < self@.len(),
        ensures
            r == self@[index as int].1,
    {
        self.names[index].global
    }

    /// The text of the name at `index`.
    pub fn name(&self, index: usize) -> (r: String)
        requires
            index < self@.len(),
        ensures
            r@ == self@[index as int].0,
    {
        self.names[index].text.clone()
    }

    /// The index of a name that is already lower case, if it has one.
    fn position(&self, text: &String, global: bool) -> (r: Option<usize>)
        ensures
            match r {
                Some(i) => find(self@, text@, global) == Some(i as int),
                None => find(self@, text@, global) is None,
            },
    {
        let mut i: usize = 0;
        while i < self.names.len()
            invariant
                i <= self.names.len(),
                find(self@, text@, global) == find_from(self@, text@, global, i as int),
            decreases self.names.len() - i,
        {
            let here = &self.names[i];
            if here.global == global && here.text == *text {
                return Some(i);
            }
            i += 1;
        }
        None
    }

    /// The index of the variable of that name and kind, if the table has
    /// it. The name is taken in lower case.
    pub fn lookup(&self, key: &str, global: bool) -> (r: Option<usize>)
        ensures
            match r {
                Some(i) => find(self@, lowercase(key@), global) == Some(i as int) && i < self@.len(),
                None => find(self@, lowercase(key@), global) is None,
            },
    {
        let text = lowercase_of(key);
        proof {
            lemma_find_from(self@, text@, global, 0);
        }
        self.position(&text, global)
    }

    fn get(&mut self, key: &str, global: bool) -> (index: usize)
        ensures
            (final(self)@, index as int) == intern(old(self)@, lowercase(key@), global),
    {
        let text = lowercase_of(key);
        match self.position(&text, global) {
            Some(i) => i,
            None => {
                let index = self.names.len();
                self.names.push(Name { text, global });
                assert(self@ =~= old(self)@.push((lowercase(key@), global)));
                index
            },
        }
    }
}

/// The index of the local variable `key`; a name not seen before gets the
/// next free index.
pub fn get_local(names: &mut Interner, key: &str) -> (index: usize)
    ensures
        (final(names)@, index as int) == intern(old(names)@, lowercase(key@), false),
{
    names.get(key, false)
}

/// The index of the global variable `key`; a name not seen before gets the
/// next free index and is from then on listed among the globals.
pub fn get_global(names: &mut Interner, key: &str) -> (index: usize)
    ensures
        (final(names)@, index as int) == intern(old(names)@, lowercase(key@), true),
{
    names.get(key, true)
}

} // verus!
