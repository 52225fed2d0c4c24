//! Paths as text: the separator, the file name's extension, and the
//! underscore prefix that collision avoidance puts before a file name.
use vstd::prelude::*;

verus! {

/// The path separator.
pub const SEPARATOR: char = '/';

/// The position of the last `c` in `s`, if any.
pub open spec fn last_index(s: Seq<char>, c: char) -> Option<nat>
    decreases s.len(),
{
    if s.len() == 0 {
        None
    } else if s.last() == c {
        Some((s.len() - 1) as nat)
    } else {
        last_index(s.drop_last(), c)
    }
}

/// How many times `c` occurs in `s`.
pub open spec fn count_char(s: Seq<char>, c: char) -> nat
    decreases s.len(),
{
    if s.len() == 0 {
        0
    } else {
        count_char(s.drop_last(), c) + if s.last() == c {
            1nat
        } else {
            0nat
        }
    }
}

/// The last component of a path: what follows its last separator.
pub open spec fn file_name(path: Seq<char>) -> Seq<char> {
    match last_index(path, SEPARATOR) {
        Some(k) => path.subrange(k + 1int, path.len() as int),
        None => path,
    }
}

/// The extension of a path: what follows the last `.` of its file name,
/// where that `.` is not the name's first character; none for `..`.
pub open spec fn extension_of(path: Seq<char>) -> Option<Seq<char>> {
    let name = file_name(path);
    if name == seq!['.', '.'] {
        None
    } else {
        match last_index(name, '.') {
            Some(k) => if k > 0 {
                Some(name.subrange(k + 1int, name.len() as int))
            } else {
                None
            },
            None => None,
        }
    }
}

/// `output`, followed by `.` and the extension of `input` where asked for
/// and `input` has one.
pub open spec fn with_extension(output: Seq<char>, input: Seq<char>, preserve: bool) -> Seq<char> {
    match extension_of(input) {
        Some(e) => if preserve {
            output + seq!['.'] + e
        } else {
            output
        },
        None => output,
    }
}

/// The path with `_` put before its file name.
pub open spec fn underscored(path: Seq<char>) -> Seq<char> {
    match last_index(path, SEPARATOR) {
        Some(k) => path.subrange(0, k + 1int) + seq!['_'] + path.subrange(k + 1int, path.len() as int),
        None => seq!['_'] + path,
    }
}

proof fn lemma_last_index(s: Seq<char>, c: char)
    ensures
        match last_index(s, c) {
            Some(k) => k < s.len() && s[k as int] == c,
            None => forall|i: int| 0 <= i < s.len() ==> s[i] != c,
        },
    decreases s.len(),
{
    if s.len() > 0 {
        lemma_last_index(s.drop_last(), c);
        if s.last() != c {
            assert forall|i: int| 0 <= i < s.len() - 1 implies s[i] == s.drop_last()[i] by {}
        }
    }
}

/// Putting `_` before the file name adds one character.
pub proof fn lemma_underscored_len(path: Seq<char>)
    ensures
        underscored(path).len() == path.len() + 1,
{
    lemma_last_index(path, SEPARATOR);
}

fn last_index_exec(s: &str, c: char) -> (r: Option<usize>)
    ensures
        match r {
            Some(k) => last_index(s@, c) == Some(k as nat) && k < s@.len() && s@[k as int] == c,
            None => last_index(s@, c) is None,
        },
{
    let n = s.unicode_len();
    let mut j: usize = n;
    assert(s@.subrange(0, n as int) =~= s@);
    while j > 0
        invariant
            j <= n == s@.len(),
            last_index(s@, c) == last_index(s@.subrange(0, j as int), c),
        decreases j,
    {
        proof {
            lemma_last_index(s@, c);
        }
        assert(s@.subrange(0, j as int).drop_last() =~= s@.subrange(0, j - 1));
        if s.get_char(j - 1) == c {
            return Some(j - 1);
        }
        j = j - 1;
    }
    None
}

/// Counts the separators in a text.
pub fn count_separators(s: &str) -> (r: usize)
    ensures
        r as nat == count_char(s@, SEPARATOR),
{
    let n = s.unicode_len();
    let mut count: usize = 0;
    let mut j: usize = 0;
    while j < n
        invariant
            j <= n == s@.len(),
            count as nat == count_char(s@.subrange(0, j as int), SEPARATOR),
            count <= j,
        decreases n - j,
    {
        assert(s@.subrange(0, j + 1).drop_last() =~= s@.subrange(0, j as int));
        if s.get_char(j) == SEPARATOR {
            count = count + 1;
        }
        j = j + 1;
    }
    assert(s@.subrange(0, n as int) =~= s@);
    count
}

/// The extension of a path, as `extension_of` says.
pub fn extension(path: &str) -> (r: Option<&str>)
    ensures
        match r {
            Some(e) => extension_of(path@) == Some(e@),
            None => extension_of(path@) is None,
        },
{
    let n = path.unicode_len();
    let name = match last_index_exec(path, SEPARATOR) {
        Some(k) => path.substring_char(k + 1, n),
        None => path,
    };
    let m = name.unicode_len();
    if m == 2 && name.get_char(0) == '.' && name.get_char(1) == '.' {
        assert(name@ =~= seq!['.', '.']);
        return None;
    }
    proof {
        if name@ == seq!['.', '.'] {
            assert(name@[0] == '.' && name@[1] == '.');
        }
    }
    match last_index_exec(name, '.') {
        Some(k) => if k > 0 {
            Some(name.substring_char(k + 1, m))
        } else {
            None
        },
        None => None,
    }
}

/// Appends `.` and the extension of `input` to `output` where `preserve`
/// asks for it and `input` has one.
pub fn add_extension(output: &mut String, input: &str, preserve: bool)
    ensures
        final(output)@ == with_extension(old(output)@, input@, preserve),
{
    if preserve {
        if let Some(e) = extension(input) {
            output.append(".");
            proof {
                reveal_strlit(".");
            }
            output.append(e);
        }
    }
}

/// The path with `_` put before its file name.
pub fn underscore_prefixed(path: &str) -> (r: String)
    ensures
        r@ == underscored(path@),
{
    let n = path.unicode_len();
    proof {
        reveal_strlit("_");
    }
    match last_index_exec(path, SEPARATOR) {
        Some(k) => {
            let mut r = path.substring_char(0, k + 1).to_owned();
            r.append("_");
            r.append(path.substring_char(k + 1, n));
            r
        },
        None => {
            let mut r = String::from_str("_");
            r.append(path);
            r
        },
    }
}

} // verus!
