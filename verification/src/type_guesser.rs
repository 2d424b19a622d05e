//! Classification of request paths into file kinds, guessed from the file
//! extension. This is a pure string-suffix lookup used by the surrounding
//! pipeline to decide whether a fetched body is a manifest to rewrite.

use vstd::prelude::*;

verus! {

/// The `FileType` type. Represents the different kinds of files that can be
/// reached from an m3u playlist.
#[derive(Debug, Clone, Copy, PartialEq, Eq, Structural)]
pub enum FileType {
    /// A manifest (playlist) file
    Manifest,
    /// A segment (media content) file
    Segment,
}

impl FileType {
    /// Returns an uppercase string representation of the file type
    pub fn uppercase_string(&self) -> (r: String)
        ensures
            *self == FileType::Manifest ==> r@ == "MANIFEST"@,
            *self == FileType::Segment ==> r@ == "SEGMENT"@,
    {
        match self {
            FileType::Manifest => "MANIFEST".to_owned(),
            FileType::Segment => "SEGMENT".to_owned(),
        }
    }
}

/// The largest index at which `c` occurs in `s`, or `-1` if it does not
/// occur.
pub open spec fn last_index_of(s: Seq<char>, c: char) -> int
    decreases s.len(),
{
    if s.len() == 0 {
        -1
    } else if s[s.len() - 1] == c {
        s.len() - 1
    } else {
        last_index_of(s.subrange(0, s.len() - 1), c)
    }
}

/// `p` with any trailing `/` separators removed, as `Path` ignores them
/// when picking out the file name.
pub open spec fn strip_trailing_slashes(p: Seq<char>) -> Seq<char>
    decreases p.len(),
{
    if p.len() > 0 && p[p.len() - 1] == '/' {
        strip_trailing_slashes(p.subrange(0, p.len() - 1))
    } else {
        p
    }
}

/// The final component of a path: everything after the last `/`, trailing
/// separators ignored (the whole path when it contains no `/`).
pub open spec fn file_name_of(p: Seq<char>) -> Seq<char> {
    let q = strip_trailing_slashes(p);
    q.subrange(last_index_of(q, '/') + 1, q.len() as int)
}

/// The extension of a path: what follows the last `.` of its final
/// component, provided that `.` is not the component's first character.
pub open spec fn extension_of(p: Seq<char>) -> Option<Seq<char>> {
    let name = file_name_of(p);
    let d = last_index_of(name, '.');
    if d >= 1 {
        Some(name.subrange(d + 1, name.len() as int))
    } else {
        None
    }
}

/// The file type guessed from a path: extension `ts` names a segment,
/// extension `m3u` or `m3u8` names a manifest, anything else is unknown.
pub open spec fn guess_spec(p: Seq<char>) -> Option<FileType> {
    match extension_of(p) {
        Some(e) => if e == "ts"@ {
            Some(FileType::Segment)
        } else if e == "m3u"@ || e == "m3u8"@ {
            Some(FileType::Manifest)
        } else {
            None
        },
        None => None,
    }
}

proof fn lemma_last_index_is(s: Seq<char>, c: char, k: int)
    requires
        0 <= k <= s.len(),
        forall|m: int| k <= m < s.len() ==> s[m] != c,
        k == 0 || s[k - 1] == c,
    ensures
        last_index_of(s, c) == k - 1,
    decreases s.len(),
{
    if s.len() == 0 {
    } else if s[s.len() - 1] == c {
        assert(k == s.len());
    } else {
        let sub = s.subrange(0, s.len() - 1);
        assert(k < s.len());
        lemma_last_index_is(sub, c, k);
    }
}

proof fn lemma_last_index_bounds(s: Seq<char>, c: char)
    ensures
        -1 <= last_index_of(s, c) < s.len(),
    decreases s.len(),
{
    if s.len() > 0 && s[s.len() - 1] != c {
        lemma_last_index_bounds(s.subrange(0, s.len() - 1), c);
    }
}

proof fn lemma_strip_trailing_is(p: Seq<char>, e: int)
    requires
        0 <= e <= p.len(),
        forall|m: int| e <= m < p.len() ==> p[m] == '/',
        e == 0 || p[e - 1] != '/',
    ensures
        strip_trailing_slashes(p) == p.subrange(0, e),
    decreases p.len(),
{
    if p.len() > 0 && p[p.len() - 1] == '/' {
        let sub = p.subrange(0, p.len() - 1);
        assert(e <= sub.len());
        lemma_strip_trailing_is(sub, e);
        assert(sub.subrange(0, e) =~= p.subrange(0, e));
    } else {
        assert(e == p.len());
        assert(p.subrange(0, e) =~= p);
    }
}

/// Returns a potential file type, guessed from the file extension.
pub fn guess_file_type(path: &str) -> (r: Option<FileType>)
    ensures
        r == guess_spec(path@),
{
    let n = path.unicode_len();
    let mut e: usize = n;
    while e > 0 && path.get_char(e - 1) == '/'
        invariant
            e <= n,
            n == path@.len(),
            forall|m: int| e <= m < n ==> path@[m] == '/',
        decreases e,
    {
        e -= 1;
    }
    proof {
        lemma_strip_trailing_is(path@, e as int);
    }
    let ghost q = strip_trailing_slashes(path@);
    let mut k: usize = e;
    while k > 0 && path.get_char(k - 1) != '/'
        invariant
            k <= e <= n,
            n == path@.len(),
            q == path@.subrange(0, e as int),
            forall|m: int| k <= m < e ==> path@[m] != '/',
        decreases k,
    {
        k -= 1;
    }
    proof {
        assert(forall|m: int| k <= m < e ==> q[m] == path@[m]);
        assert(k == 0 || q[k - 1] == '/');
        lemma_last_index_is(q, '/', k as int);
    }
    let name = path.substring_char(k, e);
    assert(name@ =~= file_name_of(path@));
    let m = e - k;
    let mut d: usize = m;
    while d > 0 && name.get_char(d - 1) != '.'
        invariant
            d <= m,
            m == name@.len(),
            forall|q: int| d <= q < m ==> name@[q] != '.',
        decreases d,
    {
        d -= 1;
    }
    proof {
        lemma_last_index_is(name@, '.', d as int);
    }
    if d >= 2 {
        let ext = name.substring_char(d, m);
        assert(extension_of(path@) == Some(ext@));
        if ext.to_owned() == "ts".to_owned() {
            Some(FileType::Segment)
        } else if ext.to_owned() == "m3u".to_owned() || ext.to_owned() == "m3u8".to_owned() {
            Some(FileType::Manifest)
        } else {
            None
        }
    } else {
        None
    }
}

} // verus!
