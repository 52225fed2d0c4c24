//! Regular-expression patterns over paths, and the provider over a match's
//! capture groups.
use vstd::prelude::*;
use regex::Regex;
use crate::provider::{opt_str_view, opt_string_view, Capture, CaptureView, Provider};

verus! {

/// The regex crate's compiled expression, carried through opaquely.
#[verifier::external_type_specification]
#[verifier::external_body]
pub struct ExRegex(Regex);

/// The regex crate's compilation error, carried through opaquely.
#[verifier::external_type_specification]
#[verifier::external_body]
pub struct ExRegexError(regex::Error);

/// Whether the regex crate accepts a pattern.
pub uninterp spec fn regex_accepts(pattern: Seq<char>) -> bool;

/// The capture groups, by position, of the first match of a pattern in a
/// text (position 0 is the whole match; a group that did not take part is
/// `None`), or `None` where the pattern does not match.
pub uninterp spec fn regex_groups(pattern: Seq<char>, text: Seq<char>) -> Option<
    Seq<Option<Seq<char>>>,
>;

/// The names of a pattern's capture groups, by position (`None` for an
/// unnamed group).
pub uninterp spec fn regex_group_names(pattern: Seq<char>) -> Seq<Option<Seq<char>>>;

pub open spec fn groups_view(v: Seq<Option<String>>) -> Seq<Option<Seq<char>>> {
    v.map_values(|o: Option<String>| opt_string_view(o))
}

/// Relies on `regex::Regex::new`: whether it succeeds depends on the pattern
/// alone.
#[verifier::external_body]
fn compile_regex(pattern: &str) -> (r: Result<Regex, regex::Error>)
    ensures
        r is Ok <==> regex_accepts(pattern@),
{
    Regex::new(pattern)
}

/// Relies on `regex::Regex::captures` and `Captures::iter`: the groups of
/// the first match, one for each group of the pattern.
#[verifier::external_body]
fn regex_captures(p: &Pattern, text: &str) -> (r: Option<Vec<Option<String>>>)
    ensures
        match r {
            Some(v) => regex_groups(p@, text@) == Some(groups_view(v@)),
            None => regex_groups(p@, text@) is None,
        },
{
    p.regex.captures(text).map(|c| c.iter().map(|m| m.map(|m| m.as_str().to_string())).collect())
}

/// Relies on `regex::Regex::capture_names`: the name of each group, by
/// position.
#[verifier::external_body]
fn regex_names(p: &Pattern) -> (r: Vec<Option<String>>)
    ensures
        groups_view(r@) == regex_group_names(p@),
{
    p.regex.capture_names().map(|n| n.map(|n| n.to_string())).collect()
}

/// Relies on `regex::Error`'s `Display`: the message that describes it.
#[verifier::external_body]
fn regex_error_text(e: &regex::Error) -> String {
    e.to_string()
}

/// A compiled regular expression together with its source text. The only
/// way to build one is `Pattern::new`, so `regex` is always the compilation
/// of `source`.
pub struct Pattern {
    source: String,
    regex: Regex,
}

impl View for Pattern {
    type V = Seq<char>;

    closed spec fn view(&self) -> Seq<char> {
        self.source@
    }
}

impl Pattern {
    /// Compiles a pattern; the error carries the regex crate's message.
    pub fn new(source: &str) -> (r: Result<Pattern, String>)
        ensures
            r is Ok <==> regex_accepts(source@),
            r matches Ok(p) ==> p@ == source@,
    {
        match compile_regex(source) {
            Ok(regex) => Ok(Pattern { source: source.to_owned(), regex }),
            Err(e) => Err(regex_error_text(&e)),
        }
    }

    /// The source text.
    pub fn as_str(&self) -> (r: &str)
        ensures
            r@ == self@,
    {
        self.source.as_str()
    }

    /// The capture groups of the first match in `text`, with the pattern's
    /// group names, or `None` where it does not match.
    pub fn captures(&self, text: &str) -> (r: Option<Captured>)
        ensures
            match regex_groups(self@, text@) {
                Some(g) => r matches Some(c) && groups_view(c.groups@) == g
                    && groups_view(c.names@) == regex_group_names(self@),
                None => r is None,
            },
    {
        match regex_captures(self, text) {
            Some(groups) => Some(Captured { groups, names: regex_names(self) }),
            None => None,
        }
    }
}

/// The first position at which `names` holds `name`.
pub open spec fn name_position(names: Seq<Option<Seq<char>>>, name: Seq<char>) -> Option<nat>
    decreases names.len(),
{
    if names.len() == 0 {
        None
    } else {
        match name_position(names.drop_last(), name) {
            Some(i) => Some(i),
            None => if names.last() == Some(name) {
                Some((names.len() - 1) as nat)
            } else {
                None
            },
        }
    }
}

/// What a reference resolves to over capture groups and their names: a
/// position gives the group there, a name the group of the first position
/// that bears it; a group that did not take part gives nothing.
pub open spec fn group_value(
    groups: Seq<Option<Seq<char>>>,
    names: Seq<Option<Seq<char>>>,
    capture: CaptureView,
) -> Option<Seq<char>> {
    match capture {
        CaptureView::Index(i) => if i < groups.len() {
            groups[i as int]
        } else {
            None
        },
        CaptureView::Name(n) => match name_position(names, n) {
            Some(i) => if i < groups.len() {
                groups[i as int]
            } else {
                None
            },
            None => None,
        },
    }
}

/// The groups of one match and the names of the pattern's groups.
pub struct Captured {
    pub groups: Vec<Option<String>>,
    pub names: Vec<Option<String>>,
}

proof fn lemma_name_position_prefix(names: Seq<Option<Seq<char>>>, name: Seq<char>, j: int)
    requires
        0 <= j < names.len(),
        name_position(names.take(j), name) is None,
        names[j] != Some(name),
    ensures
        name_position(names.take(j + 1), name) is None,
{
    assert(names.take(j + 1).drop_last() =~= names.take(j));
}

proof fn lemma_name_position_extend(names: Seq<Option<Seq<char>>>, name: Seq<char>, j: int)
    requires
        0 <= j <= names.len(),
        name_position(names.take(j), name) is Some,
    ensures
        name_position(names, name) == name_position(names.take(j), name),
    decreases names.len() - j,
{
    if j < names.len() {
        assert(names.take(j + 1).drop_last() =~= names.take(j));
        lemma_name_position_extend(names, name, j + 1);
    } else {
        assert(names.take(j) =~= names);
    }
}

fn group_at(groups: &Vec<Option<String>>, i: usize) -> (r: Option<&str>)
    ensures
        opt_str_view(r) == (if i < groups@.len() {
            groups_view(groups@)[i as int]
        } else {
            None
        }),
{
    if i < groups.len() {
        match &groups[i] {
            Some(s) => Some(s.as_str()),
            None => None,
        }
    } else {
        None
    }
}

impl Provider for Captured {
    open spec fn value_of(&self, capture: CaptureView) -> Option<Seq<char>> {
        group_value(groups_view(self.groups@), groups_view(self.names@), capture)
    }

    fn provide(&self, capture: &Capture) -> (r: Option<&str>) {
        match capture {
            Capture::Index(i) => group_at(&self.groups, *i),
            Capture::Name(name) => {
                let ghost names = groups_view(self.names@);
                let mut j: usize = 0;
                while j < self.names.len()
                    invariant
                        names == groups_view(self.names@),
                        capture@ == CaptureView::Name(name@),
                        j <= self.names@.len(),
                        name_position(names.take(j as int), name@) is None,
                    decreases self.names@.len() - j,
                {
                    let hit = match &self.names[j] {
                        Some(n) => n.eq(name),
                        None => false,
                    };
                    assert(names[j as int] == opt_string_view(self.names@[j as int]));
                    if hit {
                        assert(names[j as int] == Some(name@));
                        assert(names.take(j + 1).drop_last() =~= names.take(j as int));
                        assert(names.take(j + 1).last() == Some(name@));
                        assert(name_position(names.take(j + 1), name@) == Some(j as nat));
                        proof {
                            lemma_name_position_extend(names, name@, j + 1);
                        }
                        assert(name_position(names, name@) == Some(j as nat));
                        assert(groups_view(self.groups@).len() == self.groups@.len());
                        return group_at(&self.groups, j);
                    }
                    proof {
                        lemma_name_position_prefix(names, name@, j as int);
                    }
                    j = j + 1;
                }
                assert(names.take(j as int) =~= names);
                None
            },
        }
    }
}

} // verus!
