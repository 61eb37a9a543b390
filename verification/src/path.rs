//! Project paths as sequences of components, and collections keyed by them.
//! Two spellings of one path that split into the same components are equal,
//! so lookups line up whoever reported the path.

use vstd::prelude::*;
use vstd::string::*;
use vstd::utf8::valid_utf8;

verus! {

/// `std::str::from_utf8`: tells whether bytes are UTF-8, as its documentation
/// says: an error comes back exactly where they are not.
#[verifier::external_body]
pub(crate) fn is_utf8(bytes: &[u8]) -> (r: bool)
    ensures
        r == valid_utf8(bytes@),
{
    std::str::from_utf8(bytes).is_ok()
}

pub fn same_bytes(a: &[u8], b: &[u8]) -> (r: bool)
    ensures
        r == (a@ == b@),
{
    if a.len() != b.len() {
        return false;
    }
    let mut i: usize = 0;
    while i < a.len()
        invariant
            i <= a@.len(),
            a@.len() == b@.len(),
            forall|k: int| 0 <= k < i ==> a@[k] == b@[k],
        decreases a@.len() - i,
    {
        if a[i] != b[i] {
            return false;
        }
        i = i + 1;
    }
    assert(a@ == b@);
    true
}

/// `word` occurs in `text` at this place.
pub open spec fn occurs_at(text: Seq<u8>, word: Seq<u8>, at: int) -> bool {
    0 <= at && at + word.len() <= text.len() && text.subrange(at, at + word.len()) == word
}

pub open spec fn has_word(text: Seq<u8>, word: Seq<u8>) -> bool {
    exists|at: int| occurs_at(text, word, at)
}

/// Whether `word` occurs somewhere in `text`.
pub fn contains_bytes(text: &[u8], word: &[u8]) -> (r: bool)
    ensures
        r == has_word(text@, word@),
{
    if word.len() > text.len() {
        return false;
    }
    let total: usize = text.len();
    let last: usize = total - word.len();
    let mut at: usize = 0;
    while at <= last
        invariant
            at <= last,
            total == text@.len(),
            last == text@.len() - word@.len(),
            forall|k: int| 0 <= k < at ==> !occurs_at(text@, word@, k),
        decreases last - at,
    {
        let mut n: usize = 0;
        while n < word.len() && text[at + n] == word[n]
            invariant
                n <= word@.len(),
                total == text@.len(),
                at + word@.len() <= text@.len(),
                forall|k: int| 0 <= k < n ==> text@[at + k] == word@[k],
            decreases word@.len() - n,
        {
            n = n + 1;
        }
        if n == word.len() {
            assert(text@.subrange(at as int, at + word@.len()) == word@);
            assert(occurs_at(text@, word@, at as int));
            return true;
        }
        assert(text@.subrange(at as int, at + word@.len())[n as int] != word@[n as int]);
        if at == last {
            return false;
        }
        at = at + 1;
    }
    false
}

/// A path, one byte string per component. A root directory is a component of
/// its own.
pub struct FilePath {
    pub parts: Vec<Vec<u8>>,
}

impl View for FilePath {
    type V = Seq<Seq<u8>>;

    open spec fn view(&self) -> Seq<Seq<u8>> {
        self.parts@.map_values(|p: Vec<u8>| p@)
    }
}

/// A last dot has something before it.
pub open spec fn is_split(name: Seq<u8>, dot: int) -> bool {
    &&& 0 < dot < name.len()
    &&& name[dot] == 0x2e
    &&& forall|i: int| dot < i < name.len() ==> #[trigger] name[i] != 0x2e
}

/// The last component ends in a dot and this extension, with something before
/// the dot.
pub open spec fn extension_is(path: Seq<Seq<u8>>, ext: Seq<u8>) -> bool {
    &&& path.len() > 0
    &&& exists|dot: int| #[trigger] is_split(path.last(), dot) && path.last().skip(dot + 1) == ext
}

pub open spec fn under(path: Seq<Seq<u8>>, root: Seq<Seq<u8>>) -> bool {
    root.len() <= path.len() && path.take(root.len() as int) == root
}

fn clone_bytes(b: &Vec<u8>) -> (c: Vec<u8>)
    ensures
        c@ == b@,
{
    let mut c: Vec<u8> = Vec::new();
    let mut i: usize = 0;
    while i < b.len()
        invariant
            i <= b@.len(),
            c@ == b@.take(i as int),
        decreases b@.len() - i,
    {
        c.push(b[i]);
        i = i + 1;
        assert(c@ == b@.take(i as int));
    }
    assert(b@.take(i as int) == b@);
    c
}

/// Where the last dot of a name is, if something stands before it.
fn last_dot(name: &Vec<u8>) -> (at: Option<usize>)
    ensures
        match at {
            Some(dot) => is_split(name@, dot as int) && dot < usize::MAX,
            None => forall|dot: int| !#[trigger] is_split(name@, dot),
        },
{
    let mut i: usize = name.len();
    while i > 0
        invariant
            i <= name@.len(),
            forall|k: int| i <= k < name@.len() ==> #[trigger] name@[k] != 0x2e,
        decreases i,
    {
        i = i - 1;
        if name[i] == 0x2e {
            if i == 0 {
                return None;
            }
            assert(is_split(name@, i as int));
            return Some(i);
        }
    }
    None
}

impl FilePath {
    pub fn same(&self, other: &FilePath) -> (r: bool)
        ensures
            r == (self@ == other@),
    {
        if self.parts.len() != other.parts.len() {
            assert(self@.len() != other@.len());
            return false;
        }
        let mut i: usize = 0;
        while i < self.parts.len()
            invariant
                i <= self.parts@.len(),
                self.parts@.len() == other.parts@.len(),
                forall|k: int| 0 <= k < i ==> self@[k] == other@[k],
            decreases self.parts@.len() - i,
        {
            if !same_bytes(self.parts[i].as_slice(), other.parts[i].as_slice()) {
                assert(self@[i as int] != other@[i as int]);
                return false;
            }
            assert(self@[i as int] == other@[i as int]);
            i = i + 1;
        }
        assert(self@ == other@);
        true
    }

    pub fn duplicate(&self) -> (copy: FilePath)
        ensures
            copy@ == self@,
    {
        let mut copy = FilePath { parts: Vec::new() };
        copy.extend(self, 0);
        assert(self@.skip(0) == self@);
        assert(copy@ == self@);
        copy
    }

    /// Append the components of another path from the given one on.
    fn extend(&mut self, other: &FilePath, from: usize)
        requires
            from <= other.parts@.len(),
        ensures
            final(self)@ == old(self)@ + other@.skip(from as int),
    {
        let mut i: usize = from;
        while i < other.parts.len()
            invariant
                from <= i <= other.parts@.len(),
                self@ == old(self)@ + other@.subrange(from as int, i as int),
            decreases other.parts@.len() - i,
        {
            let ghost before = self@;
            let ghost parts = self.parts@;
            self.parts.push(clone_bytes(&other.parts[i]));
            i = i + 1;
            assert(self@ == before.push(other@[i - 1]));
            assert(self@ == old(self)@ + other@.subrange(from as int, i as int));
        }
        assert(self@ == old(self)@ + other@.skip(from as int));
    }

    /// The path with one more component.
    pub fn join(&self, name: &str) -> (joined: FilePath)
        ensures
            joined@ == self@.push(name.spec_bytes()),
    {
        let mut joined = self.duplicate();
        let bytes = name.as_bytes();
        let mut part: Vec<u8> = Vec::new();
        part.extend_from_slice(bytes);
        let ghost before = joined.parts@;
        joined.parts.push(part);
        assert(part@ == name.spec_bytes());
        assert(joined@ == self@.push(name.spec_bytes()));
        joined
    }

    /// The part below `from`, moved under `to`; a path not below it stays.
    pub fn rebased(&self, from: &FilePath, to: &FilePath) -> (moved: FilePath)
        ensures
            moved@ == (if under(self@, from@) { to@ + self@.skip(from@.len() as int) } else { self@ }),
    {
        let n: usize = from.parts.len();
        if n > self.parts.len() {
            return self.duplicate();
        }
        let mut i: usize = 0;
        while i < n
            invariant
                i <= n,
                n == from.parts@.len(),
                n <= self.parts@.len(),
                forall|k: int| 0 <= k < i ==> self@[k] == from@[k],
            decreases n - i,
        {
            if !same_bytes(self.parts[i].as_slice(), from.parts[i].as_slice()) {
                assert(self@[i as int] != from@[i as int]);
                assert(self@.take(n as int)[i as int] != from@[i as int]);
                return self.duplicate();
            }
            assert(self@[i as int] == from@[i as int]);
            i = i + 1;
        }
        assert(self@.take(n as int) == from@);
        let mut moved = to.duplicate();
        moved.extend(self, n);
        moved
    }

    /// Whether the last component has this extension.
    pub fn has_extension(&self, ext: &str) -> (r: bool)
        ensures
            r == extension_is(self@, ext.spec_bytes()),
    {
        let n: usize = self.parts.len();
        if n == 0 {
            return false;
        }
        let name = &self.parts[n - 1];
        assert(self@.last() == name@);
        match last_dot(name) {
            None => false,
            Some(dot) => {
                let tail: Vec<u8> = bytes_from(name, dot + 1);
                let r = same_bytes(tail.as_slice(), ext.as_bytes());
                proof {
                    if r {
                        assert(is_split(self@.last(), dot as int));
                    } else {
                        assert forall|other: int| #[trigger] is_split(self@.last(), other) implies other == dot by {
                            if other < dot {
                                assert(name@[dot as int] != 0x2e);
                            } else if other > dot {
                                assert(name@[other] != 0x2e);
                            }
                        }
                    }
                }
                r
            },
        }
    }
}

fn bytes_from(b: &Vec<u8>, from: usize) -> (c: Vec<u8>)
    requires
        from <= b@.len(),
    ensures
        c@ == b@.skip(from as int),
{
    let mut c: Vec<u8> = Vec::new();
    let mut i: usize = from;
    while i < b.len()
        invariant
            from <= i <= b@.len(),
            c@ == b@.subrange(from as int, i as int),
        decreases b@.len() - i,
    {
        c.push(b[i]);
        i = i + 1;
        assert(c@ == b@.subrange(from as int, i as int));
    }
    assert(c@ == b@.skip(from as int));
    c
}

/// Paths are the same exactly if they have the same components, one by one.
pub proof fn paths_are_their_components(a: &FilePath, b: &FilePath, r: bool, i: int)
    requires
        call_ensures(FilePath::same, (a, b), r),
        0 <= i < a.parts@.len(),
    ensures
        a.parts@.len() != b.parts@.len() ==> !r,
        i < b.parts@.len() && a.parts@[i]@ != b.parts@[i]@ ==> !r,
        r ==> a.parts@[i]@ == b.parts@[i]@,
        !r && a.parts@.len() == b.parts@.len() ==> exists|k: int| 0 <= k < a.parts@.len() && (#[trigger] a.parts@[k])@ != b.parts@[k]@,
{
    assert(a@[i] == a.parts@[i]@);
    assert(a@.len() == a.parts@.len() && b@.len() == b.parts@.len());
    if i < b.parts@.len() {
        assert(b@[i] == b.parts@[i]@);
    }
    if !r && a.parts@.len() == b.parts@.len() {
        if forall|k: int| 0 <= k < a.parts@.len() ==> (#[trigger] a.parts@[k])@ == b.parts@[k]@ {
            assert(a@ =~= b@);
        }
    }
}

/// Joining adds one component, and a copy has the same ones.
pub proof fn joining_adds_a_component(path: &FilePath, name: &str, joined: FilePath, copy: FilePath, i: int)
    requires
        call_ensures(FilePath::join, (path, name), joined),
        call_ensures(FilePath::duplicate, (path,), copy),
        0 <= i < path@.len(),
    ensures
        joined@.len() == path@.len() + 1,
        joined@[i] == path@[i],
        joined@[path@.len() as int] == name.spec_bytes(),
        copy@.len() == path@.len() && copy@[i] == path@[i],
{
}

/// A directory moves to its new place, and what is below it stays below it;
/// what was not below it stays where it is.
pub proof fn moved_directories_take_their_files(
    from: &FilePath,
    to: &FilePath,
    dir: &FilePath,
    name: &str,
    file: &FilePath,
    moved_dir: &FilePath,
    moved_file: FilePath,
    expected: FilePath,
    itself: FilePath,
)
    requires
        call_ensures(FilePath::join, (dir, name), *file),
        call_ensures(FilePath::rebased, (dir, from, to), *moved_dir),
        call_ensures(FilePath::rebased, (file, from, to), moved_file),
        call_ensures(FilePath::join, (moved_dir, name), expected),
        call_ensures(FilePath::rebased, (from, from, to), itself),
    ensures
        itself@ == to@,
        from@.len() <= dir@.len() ==> moved_file@ == expected@,
{
    assert(from@.take(from@.len() as int) =~= from@);
    assert(to@ + from@.skip(from@.len() as int) =~= to@);
    if from@.len() <= dir@.len() {
        assert(file@.take(from@.len() as int) =~= dir@.take(from@.len() as int));
        assert(file@.skip(from@.len() as int) =~= dir@.skip(from@.len() as int).push(name.spec_bytes()));
        assert(moved_file@ =~= expected@);
    }
}

/// A path that differs from the directory somewhere, or is shorter, is not
/// moved.
pub proof fn other_paths_are_not_moved(path: &FilePath, from: &FilePath, to: &FilePath, result: FilePath, i: int)
    requires
        call_ensures(FilePath::rebased, (path, from, to), result),
        0 <= i < from@.len(),
        i >= path@.len() || path@[i] != from@[i],
    ensures
        result@ == path@,
{
    if from@.len() <= path@.len() {
        assert(path@.take(from@.len() as int)[i] == path@[i]);
    }
}

/// A name with something before its last dot has what follows as its only
/// extension; a name without such a dot has none.
pub proof fn names_have_one_extension(path: &FilePath, stem: Seq<u8>, tail: Seq<u8>, ext: &str, r: bool)
    requires
        call_ensures(FilePath::has_extension, (path, ext), r),
        forall|i: int| 0 <= i < tail.len() ==> #[trigger] tail[i] != 0x2e,
    ensures
        path@.len() == 0 ==> !r,
        path@.len() > 0 && path@.last() == stem.push(0x2e) + tail && stem.len() > 0 ==> r == (ext.spec_bytes() == tail),
        path@.len() > 0 && path@.last() == seq![0x2eu8] + tail ==> !r,
        path@.len() > 0 && path@.last() == tail ==> !r,
{
    if path@.len() > 0 {
        let name = path@.last();
        if name == stem.push(0x2e) + tail && stem.len() > 0 {
            let dot = stem.len() as int;
            assert forall|i: int| dot < i < name.len() implies #[trigger] name[i] != 0x2e by {
                assert(name[i] == tail[i - dot - 1]);
            }
            assert(is_split(name, dot));
            assert(name.skip(dot + 1) =~= tail);
            assert forall|other: int| #[trigger] is_split(name, other) implies other == dot by {
                if other < dot {
                    assert(name[dot] != 0x2e);
                } else if other > dot {
                    assert(name[other] != 0x2e);
                }
            }
        }
        if name == seq![0x2eu8] + tail {
            assert forall|other: int| !#[trigger] is_split(name, other) by {
                if 0 < other < name.len() {
                    assert(name[other] == tail[other - 1]);
                }
            }
        }
        if name == tail {
            assert forall|other: int| !#[trigger] is_split(name, other) by {
                if 0 < other < name.len() {
                    assert(name[other] == tail[other]);
                }
            }
        }
    }
}

/// A word is found wherever it stands in a text, and only if it does.
pub proof fn words_are_found_anywhere(text: &[u8], word: &[u8], before: Seq<u8>, after: Seq<u8>, r: bool, same: bool)
    requires
        call_ensures(contains_bytes, (text, word), r),
        call_ensures(same_bytes, (text, word), same),
    ensures
        text@ == before + word@ + after ==> r,
        r ==> exists|at: int| 0 <= at && at + word@.len() <= text@.len() && #[trigger] text@.subrange(at, at + word@.len()) == word@,
        same <==> text@ == word@,
{
    if text@ == before + word@ + after {
        let at = before.len() as int;
        assert(text@.subrange(at, at + word@.len()) =~= word@);
        assert(occurs_at(text@, word@, at));
    }
    if r {
        let at = choose|at: int| occurs_at(text@, word@, at);
        assert(text@.subrange(at, at + word@.len()) == word@);
    }
}

} // verus!
