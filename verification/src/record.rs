//! The record schema: one `FileRecord` per indexed file, and the rule that
//! derives the `extension` field from the file name.

use vstd::prelude::*;
use vstd::string::StrSliceExecFns;

verus! {

/// ASCII uppercase letters map to their lowercase form; every other
/// character is kept as it is.
pub open spec fn lower_char(c: char) -> char {
    if 'A' <= c && c <= 'Z' {
        ((c as int) + 32) as char
    } else {
        c
    }
}

/// A character sequence, lowercased character by character.
pub open spec fn lower_seq(s: Seq<char>) -> Seq<char> {
    s.map_values(|c: char| lower_char(c))
}

/// The characters after the last `.` of `name`, not yet lowercased;
/// `None` when `name` holds no `.` at all.
pub open spec fn raw_ext_opt(name: Seq<char>) -> Option<Seq<char>>
    decreases name.len(),
{
    if name.len() == 0 {
        None
    } else if name.last() == '.' {
        Some(Seq::empty())
    } else {
        match raw_ext_opt(name.drop_last()) {
            Some(e) => Some(e.push(name.last())),
            None => None,
        }
    }
}

/// The extension of a file name: the lowercased characters after the last
/// `.`, or the empty sequence when the name holds no `.`.
pub open spec fn ext_of(name: Seq<char>) -> Seq<char> {
    match raw_ext_opt(name) {
        Some(e) => lower_seq(e),
        None => Seq::empty(),
    }
}

/// Relies on `String::push`: it appends exactly the one character.
#[verifier::external_body]
fn push_char(s: &mut String, c: char)
    ensures
        final(s)@ == old(s)@.push(c),
{
    s.push(c)
}

fn lower_char_exec(c: char) -> (r: char)
    ensures
        r == lower_char(c),
{
    match c {
        'A' => 'a',
        'B' => 'b',
        'C' => 'c',
        'D' => 'd',
        'E' => 'e',
        'F' => 'f',
        'G' => 'g',
        'H' => 'h',
        'I' => 'i',
        'J' => 'j',
        'K' => 'k',
        'L' => 'l',
        'M' => 'm',
        'N' => 'n',
        'O' => 'o',
        'P' => 'p',
        'Q' => 'q',
        'R' => 'r',
        'S' => 's',
        'T' => 't',
        'U' => 'u',
        'V' => 'v',
        'W' => 'w',
        'X' => 'x',
        'Y' => 'y',
        'Z' => 'z',
        _ => c,
    }
}

proof fn lemma_no_dot(s: Seq<char>)
    requires
        forall|j: int| 0 <= j < s.len() ==> s[j] != '.',
    ensures
        raw_ext_opt(s) is None,
    decreases s.len(),
{
    if s.len() > 0 {
        lemma_no_dot(s.drop_last());
    }
}

proof fn lemma_raw_ext_after_dot(s: Seq<char>, i: int)
    requires
        0 < i <= s.len(),
        s[i - 1] == '.',
        forall|j: int| i <= j < s.len() ==> s[j] != '.',
    ensures
        raw_ext_opt(s) == Some(s.subrange(i, s.len() as int)),
    decreases s.len() - i,
{
    if i == s.len() {
        assert(s.last() == '.');
        assert(s.subrange(i, s.len() as int) =~= Seq::<char>::empty());
    } else {
        assert(s.last() != '.');
        lemma_raw_ext_after_dot(s.drop_last(), i);
        let e = s.drop_last().subrange(i, s.len() - 1);
        assert(e.push(s.last()) =~= s.subrange(i, s.len() as int));
    }
}

/// The extension of a file name: the lowercased characters after the last
/// `.`, or the empty string when the name holds no `.`.
pub fn extension_from_name(name: &str) -> (r: String)
    ensures
        r@ == ext_of(name@),
{
    let n = name.unicode_len();
    let mut i: usize = n;
    while i > 0
        invariant
            i <= n,
            n == name@.len(),
            forall|j: int| i <= j < n ==> name@[j] != '.',
        decreases i,
    {
        let c = name.get_char(i - 1);
        if c == '.' {
            proof {
                lemma_raw_ext_after_dot(name@, i as int);
            }
            let mut ext = String::new();
            let mut j: usize = i;
            while j < n
                invariant
                    i <= j <= n,
                    n == name@.len(),
                    raw_ext_opt(name@) == Some(name@.subrange(i as int, n as int)),
                    ext@ == lower_seq(name@.subrange(i as int, j as int)),
                decreases n - j,
            {
                let c2 = name.get_char(j);
                let low = lower_char_exec(c2);
                push_char(&mut ext, low);
                proof {
                    assert(name@.subrange(i as int, (j + 1) as int) =~= name@.subrange(
                        i as int,
                        j as int,
                    ).push(name@[j as int]));
                    assert(lower_seq(name@.subrange(i as int, (j + 1) as int)) =~= lower_seq(
                        name@.subrange(i as int, j as int),
                    ).push(lower_char(name@[j as int])));
                }
                j = j + 1;
            }
            return ext;
        }
        i = i - 1;
    }
    proof {
        lemma_no_dot(name@);
    }
    let r = String::new();
    r
}

/// One indexed file: a point-in-time metadata snapshot, keyed by `path`.
pub struct FileRecord {
    /// The absolute path: the unique key of the store.
    pub path: String,
    /// The base file name, extension included; not unique.
    pub name: String,
    /// The byte length the filesystem reported at scan time.
    pub size: u64,
    /// Derived from `name`: lowercased characters after the last `.`.
    pub extension: String,
}

/// The mathematical image of a `FileRecord`.
pub struct FileRecordV {
    pub path: Seq<char>,
    pub name: Seq<char>,
    pub size: u64,
    pub extension: Seq<char>,
}

impl View for FileRecord {
    type V = FileRecordV;

    open spec fn view(&self) -> FileRecordV {
        FileRecordV {
            path: self.path@,
            name: self.name@,
            size: self.size as u64,
            extension: self.extension@,
        }
    }
}

} // verus!
