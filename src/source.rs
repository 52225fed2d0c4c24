//! Candidate sources: pattern matching over paths, natural-order sequential
//! numbering, and replay of a recorded map; and the options that select one.
use vstd::prelude::*;
use crate::decimal::{decimal, decimal_string};
use crate::errors::{FormatError, FormatErrorView, SourceError};
use crate::natural::{is_sorted, natural_sort, strings_view, SortOrder};
use crate::paths::{add_extension, count_char, count_separators, with_extension, SEPARATOR};
use crate::pattern::{group_value, regex_accepts, regex_group_names, regex_groups, Pattern};
use crate::provider::{list_value, opt_string_view, str_list_view, CaptureView};
use crate::template::{rendered, values_of, Formatter};

verus! {

/// serde_json's error, carried through opaquely.
#[verifier::external_type_specification]
#[verifier::external_body]
pub struct ExJsonError(serde_json::Error);

/// The entries of a JSON object whose values are all strings, in the order
/// of the text, or `None` where the text is no such object.
pub uninterp spec fn json_string_map(text: Seq<char>) -> Option<Seq<(Seq<char>, Seq<char>)>>;

pub open spec fn pairs_view(v: Seq<(String, String)>) -> Seq<(Seq<char>, Seq<char>)> {
    v.map_values(|p: (String, String)| (p.0@, p.1@))
}

/// Relies on `serde_json::from_str` into a `serde_json::Map`, which keeps
/// the entries in the order of the text, and on `serde_json::from_value`,
/// which accepts a string value only.
#[verifier::external_body]
fn parse_string_map(text: &str) -> (r: Result<Vec<(String, String)>, serde_json::Error>)
    ensures
        match r {
            Ok(v) => json_string_map(text@) == Some(pairs_view(v@)),
            Err(_) => json_string_map(text@) is None,
        },
{
    let map: serde_json::Map<String, serde_json::Value> = serde_json::from_str(text)?;
    map.into_iter().map(|(k, v)| serde_json::from_value(v).map(|s: String| (k, s))).collect()
}

/// The pretty-printed JSON text of an object with the given entries, in
/// order, as bytes.
pub uninterp spec fn json_object_bytes(entries: Seq<(Seq<char>, Seq<char>)>) -> Seq<u8>;

/// Relies on `serde_json::to_vec_pretty` on a `serde_json::Map` of string
/// values, which keeps the order in which the entries were inserted; it
/// fails only where a `Serialize` impl fails or a key is not a string,
/// neither of which can happen here.
#[verifier::external_body]
fn encode_string_map(entries: &Vec<(String, String)>) -> (r: Result<Vec<u8>, serde_json::Error>)
    ensures
        r is Ok,
        r matches Ok(b) ==> b@ == json_object_bytes(pairs_view(entries@)),
{
    let map: serde_json::Map<String, serde_json::Value> = entries
        .iter()
        .map(|(k, v)| (k.clone(), serde_json::Value::String(v.clone())))
        .collect();
    serde_json::to_vec_pretty(&map)
}

/// The bytes of a map file that records `map` (output name to input name),
/// so that replaying it as a map source undoes the renames.
pub fn map_file_bytes(map: &Vec<(String, String)>) -> (r: Result<Vec<u8>, SourceError>)
    ensures
        r is Ok,
        r matches Ok(b) ==> b@ == json_object_bytes(pairs_view(map@)),
{
    match encode_string_map(map) {
        Ok(b) => Ok(b),
        Err(e) => Err(SourceError::new(json_error_text(&e))),
    }
}

/// Relies on `serde_json::Error`'s `Display`: the message that describes it.
#[verifier::external_body]
fn json_error_text(e: &serde_json::Error) -> String {
    e.to_string()
}

/// The sort order as the command line names it.
#[derive(PartialEq, Eq, Structural, Clone, Copy, Debug)]
pub enum Order {
    Asc,
    Desc,
}

pub open spec fn sort_order_of(order: Order) -> SortOrder {
    match order {
        Order::Asc => SortOrder::Asc,
        Order::Desc => SortOrder::Desc,
    }
}

/// The options of one run.
pub struct Cli {
    /// Simulate only: rename nothing.
    pub test: bool,
    /// Create missing parent directories of each target.
    pub mkdir: bool,
    /// Replace an existing target instead of prefixing `_`.
    pub overwrite: bool,
    /// Carry the input's extension over to the output.
    pub extension: bool,
    pub directory: Option<String>,
    pub max_depth: Option<usize>,
    pub depth: Option<usize>,
    /// Where to store the map of the renames.
    pub generate: Option<String>,
    /// Print the map.
    pub print: bool,
    /// A map file to replay.
    pub map: Option<String>,
    pub sort: Option<Order>,
    pub regex: Option<String>,
    /// `[SOURCE] OUTPUT`.
    pub output: Vec<String>,
}

/// The text of the error for a positional pattern beside a source option.
pub open spec fn positional_conflict_text() -> Seq<char> {
    "optional SOURCE must be used without setting regex, map or sort flags"@
}

impl Cli {
    /// Splits the positional arguments into a pattern and an output
    /// template: the last one is the template and the one before it, if
    /// any, the pattern unless `regex` is set. A positional pattern beside
    /// a regex, sort or map option is refused.
    pub fn pattern_and_output(&self) -> (r: Result<(Option<String>, Option<String>), SourceError>)
        ensures
            ({
                let n = self.output@.len();
                let flagged = self.regex is Some || self.sort is Some || self.map is Some;
                if flagged && n > 1 {
                    r matches Err(e) && e.text() == positional_conflict_text()
                } else {
                    r matches Ok((p, o)) && opt_string_view(o) == (if n > 0 {
                        Some(self.output@[n - 1]@)
                    } else {
                        None::<Seq<char>>
                    }) && opt_string_view(p) == (if self.regex is Some {
                        opt_string_view(self.regex)
                    } else if n > 1 {
                        Some(self.output@[n - 2]@)
                    } else {
                        None
                    })
                }
            }),
    {
        let n = self.output.len();
        let flagged = self.regex.is_some() || self.sort.is_some() || self.map.is_some();
        if flagged && n > 1 {
            return Err(
                SourceError::new(
                    String::from_str(
                        "optional SOURCE must be used without setting regex, map or sort flags",
                    ),
                ),
            );
        }
        let output = if n > 0 {
            Some(self.output[n - 1].clone())
        } else {
            None
        };
        let pattern = match &self.regex {
            Some(r) => Some(r.clone()),
            None => if n > 1 {
                Some(self.output[n - 2].clone())
            } else {
                None
            },
        };
        Ok((pattern, output))
    }
}

/// Where candidates come from.
pub enum Source {
    /// A pattern over paths, with the minimum depth and the optional
    /// maximum depth of the walk.
    Regex(Pattern, usize, Option<usize>),
    /// Recorded pairs of input and desired name.
    MapFile(Vec<(String, String)>),
    /// The entries of the directory, numbered in natural order.
    Sort(SortOrder),
}

/// The depth that a pattern implies: one more than the separators in it.
pub open spec fn inferred_depth(pattern: Seq<char>) -> nat {
    count_char(pattern, SEPARATOR) + 1
}

pub open spec fn min_depth_of(pattern: Seq<char>, depth: Option<usize>) -> nat {
    match depth {
        Some(d) => d as nat,
        None => if inferred_depth(pattern) <= usize::MAX {
            inferred_depth(pattern)
        } else {
            usize::MAX as nat
        },
    }
}

/// Depth inference: without an explicit depth, a pattern with no separator
/// is walked from depth 1 and one with a single separator from depth 2; an
/// explicit depth always wins.
pub proof fn lemma_depth_inference(pattern: Seq<char>, depth: usize)
    ensures
        count_char(pattern, SEPARATOR) == 0 ==> min_depth_of(pattern, None) == 1,
        count_char(pattern, SEPARATOR) == 1 ==> min_depth_of(pattern, None) == 2,
        min_depth_of(pattern, Some(depth)) == depth,
{
}

/// The text of the error for a run with no source.
pub open spec fn no_source_text() -> Seq<char> {
    "one of 'regex', 'sort', 'map' or 'SOURCE' options must be set."@
}

impl Source {
    /// A pattern source. Without an explicit depth, the minimum depth is
    /// inferred from the separators in the pattern.
    pub fn new_regex(pattern: &str, depth: Option<usize>, max_depth: Option<usize>) -> (r: Result<
        Self,
        SourceError,
    >)
        ensures
            r is Ok <==> regex_accepts(pattern@),
            r matches Ok(s) ==> (s matches Source::Regex(p, d, m) && p@ == pattern@ && d as nat
                == min_depth_of(pattern@, depth) && m == max_depth),
    {
        let p = match Pattern::new(pattern) {
            Ok(p) => p,
            Err(message) => {
                return Err(SourceError::new(message));
            },
        };
        let d = match depth {
            Some(d) => d,
            None => count_separators(pattern).saturating_add(1),
        };
        Ok(Source::Regex(p, d, max_depth))
    }

    /// A map source read from the text of a JSON object whose values are
    /// all strings.
    pub fn new_map(contents: &str) -> (r: Result<Self, SourceError>)
        ensures
            r is Ok <==> json_string_map(contents@) is Some,
            r matches Ok(s) ==> (s matches Source::MapFile(v) && Some(pairs_view(v@)) == json_string_map(
                contents@,
            )),
    {
        match parse_string_map(contents) {
            Ok(v) => Ok(Source::MapFile(v)),
            Err(e) => Err(SourceError::new(json_error_text(&e))),
        }
    }

    /// A sequential source in the given order.
    pub fn new_sort(order: Order) -> (r: Result<Self, SourceError>)
        ensures
            r matches Ok(Source::Sort(o)) && o == sort_order_of(order),
    {
        Ok(
            Source::Sort(
                match order {
                    Order::Asc => SortOrder::Asc,
                    Order::Desc => SortOrder::Desc,
                },
            ),
        )
    }

    /// The formatter that this source needs: none for a map, which uses
    /// the recorded names, and the given one for the others.
    pub fn checked_formatter(&self, formatter: Option<Formatter>) -> (r: Result<
        Option<Formatter>,
        FormatError,
    >)
        ensures
            self is MapFile ==> r matches Ok(None),
            !(self is MapFile) ==> match formatter {
                Some(f) => r == Ok::<Option<Formatter>, FormatError>(Some(f)),
                None => r matches Err(e) && e@ == FormatErrorView::EmptyFormatter,
            },
    {
        match self {
            Source::MapFile(_) => Ok(None),
            _ => match formatter {
                Some(f) => Ok(Some(f)),
                None => Err(FormatError::EmptyFormatter),
            },
        }
    }
}

/// Picks the source: a pattern first, then a sort order, then the text of a
/// map file; with none of them, an error.
pub fn read_source(
    regex: Option<(&str, Option<usize>, Option<usize>)>,
    sort: Option<Order>,
    map: Option<&str>,
) -> (r: Result<Source, SourceError>)
    ensures
        match regex {
            Some((p, d, m)) => (r is Ok <==> regex_accepts(p@)) && (r matches Ok(s) ==> (
            s matches Source::Regex(q, x, y) && q@ == p@ && x as nat == min_depth_of(p@, d) && y
                == m)),
            None => match sort {
                Some(o) => r matches Ok(Source::Sort(so)) && so == sort_order_of(o),
                None => match map {
                    Some(t) => (r is Ok <==> json_string_map(t@) is Some) && (r matches Ok(s) ==> (
                    s matches Source::MapFile(v) && Some(pairs_view(v@)) == json_string_map(t@))),
                    None => r matches Err(e) && e.text() == no_source_text(),
                },
            },
        },
{
    match regex {
        Some((p, d, m)) => Source::new_regex(p, d, m),
        None => match sort {
            Some(o) => Source::new_sort(o),
            None => match map {
                Some(t) => Source::new_map(t),
                None => Err(
                    SourceError::new(
                        String::from_str(
                            "one of 'regex', 'sort', 'map' or 'SOURCE' options must be set.",
                        ),
                    ),
                ),
            },
        },
    }
}

/// The depths that a walk visits: the maximum is the explicit one or else
/// the minimum, and the minimum never exceeds the maximum.
pub fn traversal_depths(depth: usize, max_depth: Option<usize>) -> (r: (usize, usize))
    ensures
        r.1 == match max_depth {
            Some(m) => m,
            None => depth,
        },
        r.0 == if depth > r.1 {
            r.1
        } else {
            depth
        },
{
    let max = match max_depth {
        Some(m) => m,
        None => depth,
    };
    (if depth > max {
        max
    } else {
        depth
    }, max)
}

/// What references resolve to over a plain list.
pub open spec fn list_values(list: Seq<Seq<char>>) -> spec_fn(CaptureView) -> Option<Seq<char>> {
    |c: CaptureView| list_value(list, c)
}

/// What references resolve to over a match's groups and the group names.
pub open spec fn group_values(
    groups: Seq<Option<Seq<char>>>,
    names: Seq<Option<Seq<char>>>,
) -> spec_fn(CaptureView) -> Option<Seq<char>> {
    |c: CaptureView| group_value(groups, names, c)
}

/// The output for the input at 1-based position `k` of a sequential run:
/// the template rendered over the input and its position, with the input's
/// extension where asked for.
pub open spec fn sequence_output(
    template: Seq<crate::template::SegmentView>,
    input: Seq<char>,
    k: nat,
    preserve: bool,
) -> Seq<char> {
    with_extension(rendered(template, list_values(seq![input, decimal(k)])), input, preserve)
}

pub open spec fn firsts(v: Seq<(String, String)>) -> Seq<String> {
    v.map_values(|p: (String, String)| p.0)
}

/// The pairs of a sequential run: the names sorted in natural order, each
/// with the output for its 1-based position in that order.
pub fn sequence_pairs(
    names: Vec<String>,
    order: SortOrder,
    formatter: &Formatter,
    preserve_extension: bool,
) -> (r: Vec<(String, String)>)
    ensures
        firsts(r@).to_multiset() == names@.to_multiset(),
        is_sorted(order, strings_view(firsts(r@))),
        forall|i: int|
            0 <= i < r@.len() ==> (#[trigger] r@[i]).1@ == sequence_output(
                formatter@,
                r@[i].0@,
                (i + 1) as nat,
                preserve_extension,
            ),
{
    let sorted = natural_sort(names, order);
    let mut pairs: Vec<(String, String)> = Vec::new();
    let mut i: usize = 0;
    while i < sorted.len()
        invariant
            i <= sorted@.len(),
            pairs@.len() == i,
            firsts(pairs@) == sorted@.take(i as int),
            forall|k: int|
                0 <= k < pairs@.len() ==> (#[trigger] pairs@[k]).1@ == sequence_output(
                    formatter@,
                    pairs@[k].0@,
                    (k + 1) as nat,
                    preserve_extension,
                ),
        decreases sorted@.len() - i,
    {
        let input = sorted[i].clone();
        let index = decimal_string(i + 1);
        let vars: Vec<&str> = vec![input.as_str(), index.as_str()];
        let ghost list = seq![input@, index@];
        assert(str_list_view(vars@) =~= list);
        assert(values_of(&vars) =~= list_values(list));
        let mut output = formatter.format(vars);
        add_extension(&mut output, input.as_str(), preserve_extension);
        let ghost before = pairs@;
        pairs.push((input, output));
        assert(pairs@[i as int].0 == sorted@[i as int]);
        assert forall|k: int| 0 <= k < i implies firsts(pairs@)[k] == sorted@[k] by {
            assert(pairs@[k] == before[k]);
            assert(firsts(before)[k] == sorted@.take(i as int)[k]);
        }
        assert(firsts(pairs@) =~= sorted@.take(i + 1));
        assert forall|k: int| 0 <= k < pairs@.len() implies (#[trigger] pairs@[k]).1@
            == sequence_output(formatter@, pairs@[k].0@, (k + 1) as nat, preserve_extension) by {
            if k < before.len() {
                assert(pairs@[k] == before[k]);
            }
        }
        i = i + 1;
    }
    assert(sorted@.take(i as int) =~= sorted@);
    pairs
}

/// The pair for one path of a pattern run: the path and the template
/// rendered over the match's groups, with the path's extension where asked
/// for; `None` where the pattern does not match.
pub fn match_entry(
    pattern: &Pattern,
    formatter: &Formatter,
    input: &str,
    preserve_extension: bool,
) -> (r: Option<(String, String)>)
    ensures
        match regex_groups(pattern@, input@) {
            Some(g) => r matches Some(p) && p.0@ == input@ && p.1@ == with_extension(
                rendered(formatter@, group_values(g, regex_group_names(pattern@))),
                input@,
                preserve_extension,
            ),
            None => r is None,
        },
{
    match pattern.captures(input) {
        Some(c) => {
            let ghost g = regex_groups(pattern@, input@)->Some_0;
            assert(values_of(&c) =~= group_values(g, regex_group_names(pattern@)));
            let mut output = formatter.format(c);
            add_extension(&mut output, input, preserve_extension);
            Some((input.to_owned(), output))
        },
        None => None,
    }
}

} // verus!
