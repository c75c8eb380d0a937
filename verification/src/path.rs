use crate::text::push_char;
use vstd::prelude::*;
use vstd::string::*;

verus! {

/// A file system path, as the sequence of its components: `absolute` when
/// it starts at the root, then each component after the root (`.`, `..` or
/// a name).
#[derive(Debug, PartialEq, Eq)]
pub struct FilePath {
    pub absolute: bool,
    pub parts: Vec<String>,
}

/// The mathematical form of a path.
pub struct PathView {
    pub absolute: bool,
    pub parts: Seq<Seq<char>>,
}

impl View for FilePath {
    type V = PathView;

    open spec fn view(&self) -> PathView {
        PathView { absolute: self.absolute, parts: self.parts@.map_values(|s: String| s@) }
    }
}

/// `p` with one more component.
pub open spec fn join_view(p: PathView, name: Seq<char>) -> PathView {
    PathView { absolute: p.absolute, parts: p.parts.push(name) }
}

/// `p` without its last component; `None` for the root and for the empty
/// path (`Path::parent`).
pub open spec fn parent_view(p: PathView) -> Option<PathView> {
    if p.parts.len() == 0 {
        None
    } else {
        Some(PathView { absolute: p.absolute, parts: p.parts.drop_last() })
    }
}

/// The last component, unless it is `.` or `..` (`Path::file_name`).
pub open spec fn file_name_view(p: PathView) -> Option<Seq<char>> {
    if p.parts.len() == 0 || p.parts.last() == seq!['.'] || p.parts.last() == seq!['.', '.'] {
        None
    } else {
        Some(p.parts.last())
    }
}

/// Index of the last `.` in `s`.
pub open spec fn last_dot(s: Seq<char>) -> Option<int>
    decreases s.len(),
{
    if s.len() == 0 {
        None
    } else if s.last() == '.' {
        Some(s.len() - 1)
    } else {
        last_dot(s.drop_last())
    }
}

/// The text after the last `.` of the file name, when that `.` is not its
/// first character (`Path::extension`).
pub open spec fn extension_view(p: PathView) -> Option<Seq<char>> {
    match file_name_view(p) {
        None => None,
        Some(n) => match last_dot(n) {
            Some(i) => if i > 0 {
                Some(n.skip(i + 1))
            } else {
                None
            },
            None => None,
        },
    }
}

/// The file name without its extension (`Path::file_stem`).
pub open spec fn file_stem_view(p: PathView) -> Option<Seq<char>> {
    match file_name_view(p) {
        None => None,
        Some(n) => match last_dot(n) {
            Some(i) => if i > 0 {
                Some(n.take(i))
            } else {
                Some(n)
            },
            None => Some(n),
        },
    }
}

/// `p` with its extension replaced by `ext` (`Path::with_extension`).
pub open spec fn with_extension_view(p: PathView, ext: Seq<char>) -> PathView {
    match file_stem_view(p) {
        None => p,
        Some(stem) => PathView {
            absolute: p.absolute,
            parts: p.parts.drop_last().push(
                if ext.len() == 0 {
                    stem
                } else {
                    stem + seq!['.'] + ext
                },
            ),
        },
    }
}

proof fn lemma_last_dot(s: Seq<char>)
    ensures
        match last_dot(s) {
            Some(i) => 0 <= i < s.len() && s[i] == '.' && forall|j: int| i < j < s.len() ==> s[j]
                != '.',
            None => forall|j: int| 0 <= j < s.len() ==> s[j] != '.',
        },
    decreases s.len(),
{
    if s.len() > 0 {
        let r = s.drop_last();
        lemma_last_dot(r);
        assert forall|j: int| 0 <= j < r.len() implies r[j] == s[j] by {}
    }
}

/// Where the last `.` of a file name stands.
pub proof fn lemma_last_dot_facts(p: PathView)
    ensures
        file_name_view(p) matches Some(n) ==> match last_dot(n) {
            Some(i) => 0 <= i < n.len() && n[i] == '.' && n =~= n.take(i) + seq!['.'] + n.skip(
                i + 1,
            ),
            None => true,
        },
{
    if let Some(n) = file_name_view(p) {
        lemma_last_dot(n);
    }
}

fn find_last_dot(s: &str) -> (res: Option<usize>)
    ensures
        match res {
            Some(i) => last_dot(s@) == Some(i as int),
            None => last_dot(s@) is None,
        },
{
    proof {
        lemma_last_dot(s@);
    }
    let mut i = s.unicode_len();
    while i > 0
        invariant
            i <= s@.len(),
            forall|j: int| i <= j < s@.len() ==> s@[j] != '.',
        decreases i,
    {
        if s.get_char(i - 1) == '.' {
            proof {
                lemma_last_dot(s@);
            }
            return Some(i - 1);
        }
        i = i - 1;
    }
    None
}

fn is_dot_name(s: &str) -> (res: (bool, bool))
    ensures
        res.0 == (s@ == seq!['.']),
        res.1 == (s@ == seq!['.', '.']),
{
    let n = s.unicode_len();
    let one = n == 1 && s.get_char(0) == '.';
    let two = n == 2 && s.get_char(0) == '.' && s.get_char(1) == '.';
    proof {
        if n == 1 && s@[0] == '.' {
            assert(s@ =~= seq!['.']);
        }
        if n == 2 && s@[0] == '.' && s@[1] == '.' {
            assert(s@ =~= seq!['.', '.']);
        }
    }
    (one, two)
}

impl FilePath {
    /// A copy of the path.
    pub fn duplicate(&self) -> (res: FilePath)
        ensures
            res@ == self@,
    {
        let parts = self.parts.clone();
        proof {
            assert(parts@ =~= self.parts@);
        }
        FilePath { absolute: self.absolute, parts }
    }

    /// The path with `name` added as its last component (`Path::join`).
    pub fn join(&self, name: &str) -> (res: FilePath)
        ensures
            res@ == join_view(self@, name@),
    {
        let mut parts = self.parts.clone();
        proof {
            assert(parts@ =~= self.parts@);
        }
        parts.push(name.to_owned());
        let res = FilePath { absolute: self.absolute, parts };
        proof {
            assert(res@.parts =~= self@.parts.push(name@));
        }
        res
    }

    /// The path without its last component.
    pub fn parent(&self) -> (res: Option<FilePath>)
        ensures
            match res {
                Some(p) => parent_view(self@) == Some(p@),
                None => parent_view(self@) is None,
            },
    {
        if self.parts.len() == 0 {
            None
        } else {
            let mut parts = self.parts.clone();
            proof {
                assert(parts@ =~= self.parts@);
            }
            parts.pop();
            let res = FilePath { absolute: self.absolute, parts };
            proof {
                assert(res@.parts =~= self@.parts.drop_last());
            }
            Some(res)
        }
    }

    /// The last component, unless it is `.` or `..`.
    pub fn file_name(&self) -> (res: Option<&String>)
        ensures
            match res {
                Some(n) => file_name_view(self@) == Some(n@),
                None => file_name_view(self@) is None,
            },
    {
        let n = self.parts.len();
        if n == 0 {
            return None;
        }
        let last = &self.parts[n - 1];
        let (one, two) = is_dot_name(last.as_str());
        if one || two {
            None
        } else {
            Some(last)
        }
    }

    /// The extension of the file name.
    pub fn extension(&self) -> (res: Option<String>)
        ensures
            match res {
                Some(e) => extension_view(self@) == Some(e@),
                None => extension_view(self@) is None,
            },
    {
        match self.file_name() {
            None => None,
            Some(name) => match find_last_dot(name.as_str()) {
                Some(i) => if i > 0 {
                    proof {
                        lemma_last_dot(name@);
                    }
                    let n = name.as_str().unicode_len();
                    let e = name.as_str().substring_char(i + 1, n).to_owned();
                    proof {
                        assert(e@ =~= name@.skip(i + 1));
                    }
                    Some(e)
                } else {
                    None
                },
                None => None,
            },
        }
    }

    /// The file name without its extension.
    pub fn file_stem(&self) -> (res: Option<String>)
        ensures
            match res {
                Some(e) => file_stem_view(self@) == Some(e@),
                None => file_stem_view(self@) is None,
            },
    {
        match self.file_name() {
            None => None,
            Some(name) => match find_last_dot(name.as_str()) {
                Some(i) => if i > 0 {
                    proof {
                        lemma_last_dot(name@);
                    }
                    let e = name.as_str().substring_char(0, i).to_owned();
                    proof {
                        assert(e@ =~= name@.take(i as int));
                    }
                    Some(e)
                } else {
                    Some(name.clone())
                },
                None => Some(name.clone()),
            },
        }
    }

    /// The path with the extension of its file name replaced by `ext`.
    pub fn with_extension(&self, ext: &str) -> (res: FilePath)
        ensures
            res@ == with_extension_view(self@, ext@),
    {
        match self.file_stem() {
            None => self.duplicate(),
            Some(stem) => {
                let ghost st = stem@;
                let name = if ext.unicode_len() == 0 {
                    stem
                } else {
                    proof {
                        reveal_strlit(".");
                        assert("."@ =~= seq!['.']);
                    }
                    stem.concat(".").concat(ext)
                };
                assert(name@ == if ext@.len() == 0 {
                    st
                } else {
                    st + seq!['.'] + ext@
                });
                let mut parts = self.parts.clone();
                proof {
                    assert(parts@ =~= self.parts@);
                }
                parts.pop();
                parts.push(name);
                let res = FilePath { absolute: self.absolute, parts };
                proof {
                    assert(res@.parts =~= self@.parts.drop_last().push(name@));
                }
                res
            },
        }
    }
}

/// ASCII letters in lower case, other characters unchanged.
pub open spec fn ascii_lower(c: char) -> char {
    if 'A' <= c <= 'Z' {
        ((c as int) + 32) as char
    } else {
        c
    }
}

/// `str::to_ascii_lowercase`.
pub open spec fn ascii_lowercase(s: Seq<char>) -> Seq<char> {
    s.map_values(|c: char| ascii_lower(c))
}

/// Lower-cases the ASCII letters of `s`.
pub fn to_ascii_lowercase(s: &str) -> (res: String)
    ensures
        res@ == ascii_lowercase(s@),
{
    let n = s.unicode_len();
    let mut out = String::new();
    let mut i: usize = 0;
    while i < n
        invariant
            i <= n,
            n == s@.len(),
            out@ == ascii_lowercase(s@.take(i as int)),
        decreases n - i,
    {
        let c = s.get_char(i);
        let l = if 'A' <= c && c <= 'Z' {
            ((c as u32) + 32) as u8 as char
        } else {
            c
        };
        push_char(&mut out, l);
        proof {
            assert(ascii_lowercase(s@.take(i + 1)) =~= ascii_lowercase(s@.take(i as int)).push(
                ascii_lower(c),
            ));
        }
        i = i + 1;
    }
    proof {
        assert(s@.take(n as int) =~= s@);
    }
    out
}

} // verus!
