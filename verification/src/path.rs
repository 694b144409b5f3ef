//! Filesystem paths as sequences of components.
//!
//! A path is held as the list of its components, the way `Path::components`
//! yields them on Unix: the root directory is the component `/`, the current
//! directory `.`, the parent directory `..`, and every other component is a
//! plain name that holds no `/`.

use vstd::prelude::*;
use vstd::string::*;

use crate::text::is_single_char;

verus! {

/// A path, held as its components.
pub struct FsPath {
    pub parts: Vec<String>,
}

impl View for FsPath {
    type V = Seq<Seq<char>>;

    open spec fn view(&self) -> Seq<Seq<char>> {
        self.parts@.map_values(|p: String| p@)
    }
}

/// `base` is a leading run of components of `p`.
pub open spec fn is_prefix_of(base: Seq<Seq<char>>, p: Seq<Seq<char>>) -> bool {
    base.len() <= p.len() && p.subrange(0, base.len() as int) == base
}

/// The last component of `p`, unless it is the root, `.` or `..`
/// (`Path::file_name`).
pub open spec fn file_name_of(p: Seq<Seq<char>>) -> Option<Seq<char>> {
    if p.len() == 0 {
        None
    } else if p.last() == seq!['/'] || p.last() == seq!['.'] || p.last() == seq!['.', '.'] {
        None
    } else {
        Some(p.last())
    }
}

/// The index of the last `.` in `s`, or -1 where there is none.
pub open spec fn last_dot(s: Seq<char>) -> int
    decreases s.len(),
{
    if s.len() == 0 {
        -1
    } else if s.last() == '.' {
        s.len() - 1
    } else {
        last_dot(s.drop_last())
    }
}

/// The extension of a file name: what follows its last `.`, where that dot
/// is not the name's first character (`Path::extension`).
pub open spec fn name_extension(name: Seq<char>) -> Option<Seq<char>> {
    let d = last_dot(name);
    if name == seq!['.', '.'] || d <= 0 {
        None
    } else {
        Some(name.subrange(d + 1, name.len() as int))
    }
}

/// The extension of the path's file name, if it has one.
pub open spec fn path_extension(p: Seq<Seq<char>>) -> Option<Seq<char>> {
    match file_name_of(p) {
        Some(name) => name_extension(name),
        None => None,
    }
}

/// The components joined by `/`.
pub open spec fn join_parts(parts: Seq<Seq<char>>) -> Seq<char>
    decreases parts.len(),
{
    if parts.len() == 0 {
        Seq::empty()
    } else if parts.len() == 1 {
        parts[0]
    } else {
        join_parts(parts.drop_last()) + seq!['/'] + parts.last()
    }
}

/// The text of a path (`Path::to_string_lossy` on Unix): the components joined
/// by `/`, where a leading root component contributes the one `/` itself.
pub open spec fn path_text(p: Seq<Seq<char>>) -> Seq<char> {
    if p.len() > 0 && p[0] == seq!['/'] {
        seq!['/'] + join_parts(p.drop_first())
    } else {
        join_parts(p)
    }
}

proof fn lemma_last_dot(s: Seq<char>, d: int)
    requires
        -1 <= d < s.len(),
        d >= 0 ==> s[d] == '.',
        forall|k: int| d < k < s.len() ==> s[k] != '.',
    ensures
        last_dot(s) == d,
    decreases s.len(),
{
    if s.len() > 0 && s.last() != '.' {
        lemma_last_dot(s.drop_last(), d);
    }
}

/// A file named `stem.ext`, where neither part holds a `.` and the stem is
/// not empty, has extension `ext`.
pub proof fn lemma_simple_file_extension(stem: Seq<char>, ext: Seq<char>)
    requires
        stem.len() > 0,
        forall|i: int| 0 <= i < stem.len() ==> stem[i] != '.',
        forall|i: int| 0 <= i < ext.len() ==> ext[i] != '.',
    ensures
        path_extension(seq![stem + seq!['.'] + ext]) == Some(ext),
{
    let name = stem + seq!['.'] + ext;
    let p = seq![name];
    assert(p.last() == name);
    assert(name[0] == stem[0]);
    assert(name != seq!['/']) by {
        if name == seq!['/'] {
            assert(name.len() == 1);
        }
    }
    assert(name != seq!['.']);
    assert(name != seq!['.', '.']);
    assert(name[stem.len() as int] == '.');
    assert forall|k: int| stem.len() < k < name.len() implies name[k] != '.' by {
        assert(name[k] == ext[k - stem.len() - 1]);
    }
    lemma_last_dot(name, stem.len() as int);
    assert(name.subrange(stem.len() as int + 1, name.len() as int) =~= ext);
}

impl Clone for FsPath {
    fn clone(&self) -> (r: Self)
        ensures
            r@ == self@,
    {
        let parts = self.parts.clone();
        assert(parts@.map_values(|p: String| p@) =~= self.parts@.map_values(|p: String| p@));
        FsPath { parts }
    }
}

impl FsPath {
    /// Whether `base` is a leading run of this path's components
    /// (`Path::starts_with`).
    pub fn starts_with(&self, base: &FsPath) -> (r: bool)
        ensures
            r == is_prefix_of(base@, self@),
    {
        let n = base.parts.len();
        if n > self.parts.len() {
            return false;
        }
        let mut i: usize = 0;
        while i < n
            invariant
                n == base@.len(),
                n <= self@.len(),
                base@.len() == base.parts@.len(),
                self@.len() == self.parts@.len(),
                i <= n,
                forall|k: int| 0 <= k < i ==> self@[k] == base@[k],
            decreases n - i,
        {
            if !(self.parts[i] == base.parts[i]) {
                assert(self@.subrange(0, n as int)[i as int] != base@[i as int]);
                return false;
            }
            i = i + 1;
        }
        assert(self@.subrange(0, n as int) =~= base@);
        true
    }

    /// Whether the two paths have the same components (`Path::eq`).
    pub fn same_as(&self, other: &FsPath) -> (r: bool)
        ensures
            r == (self@ == other@),
    {
        if self.parts.len() != other.parts.len() {
            return false;
        }
        let r = self.starts_with(other);
        assert(self@.subrange(0, other@.len() as int) =~= self@);
        r
    }

    /// The rest of this path after the leading components `base`
    /// (`Path::strip_prefix`); `None` where `base` does not lead it.
    pub fn strip_prefix(&self, base: &FsPath) -> (r: Option<FsPath>)
        ensures
            r is Some <==> is_prefix_of(base@, self@),
            r matches Some(rest) ==> rest@ == self@.subrange(base@.len() as int, self@.len() as int),
            r matches Some(rest) ==> base@ + rest@ == self@,
    {
        if !self.starts_with(base) {
            return None;
        }
        let n = base.parts.len();
        let len = self.parts.len();
        let mut rest: Vec<String> = Vec::new();
        let mut i: usize = n;
        while i < len
            invariant
                n <= i <= len,
                len == self.parts@.len(),
                rest@.len() == i - n,
                forall|k: int| 0 <= k < i - n ==> #[trigger] rest@[k]@ == self.parts@[k + n]@,
            decreases len - i,
        {
            rest.push(self.parts[i].clone());
            i = i + 1;
        }
        let r = FsPath { parts: rest };
        assert(r@ =~= self@.subrange(n as int, len as int));
        assert(base@ + r@ =~= self@);
        Some(r)
    }

    /// The last component, unless it is the root, `.` or `..`
    /// (`Path::file_name`).
    pub fn file_name(&self) -> (r: Option<&String>)
        ensures
            match r {
                Some(name) => file_name_of(self@) == Some(name@),
                None => file_name_of(self@) is None,
            },
    {
        let n = self.parts.len();
        if n == 0 {
            return None;
        }
        let last = &self.parts[n - 1];
        let s = last.as_str();
        if is_single_char(s, '/') || is_single_char(s, '.') || is_dot_dot(s) {
            None
        } else {
            Some(last)
        }
    }

    /// The extension of the file name (`Path::extension`).
    pub fn extension(&self) -> (r: Option<String>)
        ensures
            match r {
                Some(e) => path_extension(self@) == Some(e@),
                None => path_extension(self@) is None,
            },
    {
        match self.file_name() {
            None => None,
            Some(name) => extension_of_name(name.as_str()),
        }
    }

    /// The path as text (`Path::to_string_lossy` on Unix).
    pub fn to_text(&self) -> (r: String)
        ensures
            r@ == path_text(self@),
    {
        let n = self.parts.len();
        let mut out = String::new();
        let mut start: usize = 0;
        proof {
            reveal_strlit("/");
        }
        if n > 0 && is_single_char(self.parts[0].as_str(), '/') {
            out.append("/");
            start = 1;
        }
        let ghost lead: Seq<char> = out@;
        let ghost p = self@;
        let mut i: usize = start;
        while i < n
            invariant
                n == self.parts@.len(),
                p == self@,
                p.len() == n,
                start <= i <= n,
                out@ == lead + join_parts(p.subrange(start as int, i as int)),
                "/"@ == seq!['/'],
            decreases n - i,
        {
            if i > start {
                out.append("/");
            }
            out.append(self.parts[i].as_str());
            proof {
                let sub = p.subrange(start as int, i as int + 1);
                assert(sub.drop_last() =~= p.subrange(start as int, i as int));
                if i == start {
                    assert(p.subrange(start as int, i as int) =~= Seq::<Seq<char>>::empty());
                    assert(join_parts(sub) == p[i as int]);
                    assert(out@ =~= lead + join_parts(sub));
                } else {
                    assert(out@ =~= lead + join_parts(sub));
                }
            }
            i = i + 1;
        }
        proof {
            if start == 1 {
                assert(p.subrange(1, n as int) =~= p.drop_first());
            } else {
                assert(p.subrange(0, n as int) =~= p);
                assert(lead =~= Seq::<char>::empty());
            }
            assert(out@ =~= path_text(p));
        }
        out
    }
}

fn is_dot_dot(s: &str) -> (r: bool)
    ensures
        r == (s@ == seq!['.', '.']),
{
    if s.unicode_len() != 2 {
        return false;
    }
    let a = s.get_char(0);
    let b = s.get_char(1);
    if a == '.' && b == '.' {
        assert(s@ =~= seq!['.', '.']);
        true
    } else {
        false
    }
}

/// The extension of a single file name.
fn extension_of_name(name: &str) -> (r: Option<String>)
    ensures
        match r {
            Some(e) => name_extension(name@) == Some(e@),
            None => name_extension(name@) is None,
        },
{
    if is_dot_dot(name) {
        return None;
    }
    let n = name.unicode_len();
    let mut i: usize = n;
    while i > 0
        invariant
            n == name@.len(),
            i <= n,
            name@ != seq!['.', '.'],
            forall|k: int| i <= k < n ==> name@[k] != '.',
        decreases i,
    {
        if name.get_char(i - 1) == '.' {
            proof {
                lemma_last_dot(name@, i - 1);
            }
            if i - 1 == 0 {
                return None;
            }
            let ext = name.substring_char(i, n);
            let owned = String::from_str(ext);
            return Some(owned);
        }
        i = i - 1;
    }
    proof {
        lemma_last_dot(name@, -1);
    }
    None
}

} // verus!
