//! The placeholder template language: compiling a template into segments,
//! and rendering segments against a provider of values.
use vstd::prelude::*;
use crate::decimal::{padded, parse_token, parse_token_str, pad_value};
use crate::errors::{FormatError, FormatErrorView};
use crate::provider::{capture_of, Capture, CaptureView, Provider};

verus! {

/// The two flavours of the template language. They share escapes and the
/// counter of defaulted references; `Named` (the formatter) reads a
/// non-numeric reference as a name, while `Indexed` (the output pattern)
/// accepts numeric references only.
#[derive(PartialEq, Eq, Structural, Clone, Copy, Debug)]
pub enum Dialect {
    Named,
    Indexed,
}

/// The first number that a defaulted reference receives.
pub open spec fn first_auto() -> nat {
    1
}

/// Where the scanner stands: in literal text, in a placeholder's reference,
/// or in its padding.
#[derive(PartialEq, Eq, Structural, Clone, Copy, Debug)]
pub enum Mode {
    Literal,
    Reference,
    Padding,
}

/// One piece of a compiled template.
#[derive(Debug, PartialEq, Clone)]
pub enum Segment {
    Placeholder { padding: Option<usize>, capture: Capture },
    Text(String),
}

pub enum SegmentView {
    Placeholder { padding: Option<nat>, capture: CaptureView },
    Text(Seq<char>),
}

impl View for Segment {
    type V = SegmentView;

    open spec fn view(&self) -> SegmentView {
        match self {
            Segment::Placeholder { padding, capture } => SegmentView::Placeholder {
                padding: match padding {
                    Some(w) => Some(*w as nat),
                    None => None,
                },
                capture: capture@,
            },
            Segment::Text(t) => SegmentView::Text(t@),
        }
    }
}

pub open spec fn segments_view(v: Seq<Segment>) -> Seq<SegmentView> {
    v.map_values(|s: Segment| s@)
}

/// The scanner's state after a prefix of the template. `marks` tells, for
/// each segment, whether it is a placeholder whose reference token was
/// empty; `defaulted` whether the reference of the open placeholder was.
/// `defaults` lists, in
/// order, the numbers handed to defaulted references so far.
pub struct ScanState {
    pub segments: Seq<SegmentView>,
    pub mode: Mode,
    pub escape: bool,
    pub pending: Seq<char>,
    pub reference: CaptureView,
    pub auto: nat,
    pub defaults: Seq<nat>,
    pub marks: Seq<bool>,
    pub defaulted: bool,
}

pub open spec fn initial_state(d: Dialect) -> ScanState {
    ScanState {
        segments: Seq::empty(),
        mode: Mode::Literal,
        escape: false,
        pending: Seq::empty(),
        reference: CaptureView::Index(0),
        auto: first_auto(),
        defaults: Seq::empty(),
        marks: Seq::empty(),
        defaulted: false,
    }
}

/// The marks with one for pending literal text, if any.
pub open spec fn flushed_marks(marks: Seq<bool>, pending: Seq<char>) -> Seq<bool> {
    if pending.len() == 0 {
        marks
    } else {
        marks.push(false)
    }
}

/// How many marks are set.
pub open spec fn count_marks(marks: Seq<bool>) -> nat
    decreases marks.len(),
{
    if marks.len() == 0 {
        0
    } else {
        count_marks(marks.drop_last()) + if marks.last() {
            1nat
        } else {
            0nat
        }
    }
}

/// The segments with pending literal text, if any, appended.
pub open spec fn flushed(segments: Seq<SegmentView>, pending: Seq<char>) -> Seq<SegmentView> {
    if pending.len() == 0 {
        segments
    } else {
        segments.push(SegmentView::Text(pending))
    }
}

/// A non-empty reference token read in a dialect.
pub open spec fn reference_of(d: Dialect, token: Seq<char>) -> Result<CaptureView, FormatErrorView> {
    match d {
        Dialect::Named => Ok(capture_of(token)),
        Dialect::Indexed => match parse_token(token) {
            Some(i) => Ok(CaptureView::Index(i as nat)),
            None => Err(FormatErrorView::InvalidIndex(token)),
        },
    }
}

/// The state after the counter hands out its next number.
pub open spec fn take_auto(st: ScanState) -> ScanState {
    ScanState { auto: st.auto + 1, defaults: st.defaults.push(st.auto), ..st }
}

/// The state after a placeholder segment is emitted.
pub open spec fn emit(st: ScanState, seg: SegmentView, mark: bool) -> ScanState {
    ScanState {
        segments: st.segments.push(seg),
        marks: st.marks.push(mark),
        defaulted: false,
        mode: Mode::Literal,
        pending: Seq::empty(),
        reference: CaptureView::Index(0),
        ..st
    }
}

/// `:` inside a reference: the reference is settled and padding begins.
pub open spec fn open_padding(d: Dialect, st: ScanState) -> Result<ScanState, FormatErrorView> {
    if st.pending.len() == 0 {
        let t = take_auto(st);
        Ok(
            ScanState {
                mode: Mode::Padding,
                reference: CaptureView::Index(st.auto),
                defaulted: true,
                ..t
            },
        )
    } else {
        match reference_of(d, st.pending) {
            Ok(c) => Ok(
                ScanState {
                    mode: Mode::Padding,
                    reference: c,
                    pending: Seq::empty(),
                    defaulted: false,
                    ..st
                },
            ),
            Err(e) => Err(e),
        }
    }
}

/// `}` inside a placeholder: the placeholder is emitted.
pub open spec fn close_placeholder(d: Dialect, st: ScanState) -> Result<ScanState, FormatErrorView> {
    if st.pending.len() == 0 {
        if st.mode == Mode::Reference {
            Ok(
                emit(
                    take_auto(st),
                    SegmentView::Placeholder { padding: None, capture: CaptureView::Index(st.auto) },
                    true,
                ),
            )
        } else {
            Ok(
                emit(
                    st,
                    SegmentView::Placeholder { padding: None, capture: st.reference },
                    st.defaulted,
                ),
            )
        }
    } else if st.mode == Mode::Reference {
        match reference_of(d, st.pending) {
            Ok(c) => Ok(emit(st, SegmentView::Placeholder { padding: None, capture: c }, false)),
            Err(e) => Err(e),
        }
    } else {
        match parse_token(st.pending) {
            Some(w) => Ok(
                emit(
                    st,
                    SegmentView::Placeholder { padding: Some(w as nat), capture: st.reference },
                    st.defaulted,
                ),
            ),
            None => Err(FormatErrorView::InvalidPadding(st.pending)),
        }
    }
}

/// One character `ch`, at position `i`, read in state `st`.
pub open spec fn scan_step(d: Dialect, st: ScanState, i: nat, ch: char) -> Result<
    ScanState,
    FormatErrorView,
> {
    if ch == '\\' && !st.escape {
        Ok(ScanState { escape: true, ..st })
    } else if st.escape && !(ch == '{' || ch == '}' || ch == '\\') {
        Err(FormatErrorView::InvalidEscapeCharacter(i, ch))
    } else if ch == '{' && !st.escape && st.mode == Mode::Literal {
        Ok(
            ScanState {
                segments: flushed(st.segments, st.pending),
                marks: flushed_marks(st.marks, st.pending),
                pending: Seq::empty(),
                mode: Mode::Reference,
                ..st
            },
        )
    } else if ch == '}' && !st.escape {
        if st.mode == Mode::Literal {
            Err(FormatErrorView::UnopenedPlaceholder)
        } else {
            close_placeholder(d, st)
        }
    } else if ch == ':' && st.mode == Mode::Reference {
        open_padding(d, st)
    } else {
        Ok(ScanState { pending: st.pending.push(ch), escape: false, ..st })
    }
}

/// The state after the first `n` characters of `s`, or the first error.
pub open spec fn scan(d: Dialect, s: Seq<char>, n: nat) -> Result<ScanState, FormatErrorView>
    decreases n,
{
    if n == 0 {
        Ok(initial_state(d))
    } else {
        match scan(d, s, (n - 1) as nat) {
            Ok(st) => scan_step(d, st, (n - 1) as nat, s[n - 1]),
            Err(e) => Err(e),
        }
    }
}

/// What a template compiles to in a dialect.
pub open spec fn compile(d: Dialect, s: Seq<char>) -> Result<Seq<SegmentView>, FormatErrorView> {
    match scan(d, s, s.len()) {
        Ok(st) => if st.mode != Mode::Literal {
            Err(FormatErrorView::UnclosedPlaceholder)
        } else {
            Ok(flushed(st.segments, st.pending))
        },
        Err(e) => Err(e),
    }
}

/// The defaulted-reference counter: it starts at 1,
/// hands out consecutive numbers, one for each defaulted reference and for
/// nothing else, and never outruns the characters read.
pub proof fn lemma_scan_counter(d: Dialect, s: Seq<char>, n: nat)
    requires
        n <= s.len(),
        scan(d, s, n) is Ok,
    ensures
        ({
            let st = scan(d, s, n)->Ok_0;
            &&& st.auto == first_auto() + st.defaults.len()
            &&& forall|j: int| 0 <= j < st.defaults.len() ==> st.defaults[j] == first_auto() + j
            &&& st.auto + (if st.mode == Mode::Reference { 1int } else { 0int }) <= first_auto() + n
        }),
    decreases n,
{
    if n > 0 {
        lemma_scan_counter(d, s, (n - 1) as nat);
        let st = scan(d, s, (n - 1) as nat)->Ok_0;
        let nx = scan(d, s, n)->Ok_0;
        assert forall|j: int| 0 <= j < nx.defaults.len() implies nx.defaults[j] == first_auto()
            + j by {
            if j < st.defaults.len() {
                assert(nx.defaults[j] == st.defaults[j]);
            }
        }
    }
}

/// Defaulted references never repeat: the numbers handed out while
/// compiling one template are pairwise distinct.
pub proof fn lemma_defaults_distinct(d: Dialect, s: Seq<char>)
    requires
        scan(d, s, s.len()) is Ok,
    ensures
        ({
            let st = scan(d, s, s.len())->Ok_0;
            forall|j: int, k: int|
                0 <= j < k < st.defaults.len() ==> st.defaults[j] < st.defaults[k]
        }),
{
    lemma_scan_counter(d, s, s.len());
}

/// Each placeholder whose reference token was empty gets the next number:
/// the placeholder marked so, left to right, refers to the position one
/// more than the marks before it, and a placeholder with an explicit
/// reference takes no number.
pub proof fn lemma_scan_marks(d: Dialect, s: Seq<char>, n: nat)
    requires
        n <= s.len(),
        scan(d, s, n) is Ok,
    ensures
        ({
            let st = scan(d, s, n)->Ok_0;
            &&& st.marks.len() == st.segments.len()
            &&& forall|i: int|
                0 <= i < st.marks.len() && #[trigger] st.marks[i] ==> (st.segments[i]
                    matches SegmentView::Placeholder { capture, .. } && capture == CaptureView::Index(
                    first_auto() + count_marks(st.marks.take(i)),
                ))
            &&& st.auto == first_auto() + count_marks(st.marks) + (if st.mode == Mode::Padding
                && st.defaulted {
                1nat
            } else {
                0nat
            })
            &&& st.mode != Mode::Padding ==> !st.defaulted
            &&& (st.mode == Mode::Padding && st.defaulted) ==> st.reference == CaptureView::Index(
                first_auto() + count_marks(st.marks),
            )
        }),
    decreases n,
{
    if n > 0 {
        lemma_scan_marks(d, s, (n - 1) as nat);
        let st = scan(d, s, (n - 1) as nat)->Ok_0;
        let nx = scan(d, s, n)->Ok_0;
        if nx.marks.len() > st.marks.len() {
            let m = nx.marks;
            assert(m.drop_last() =~= st.marks || m.drop_last().drop_last() =~= st.marks);
            assert forall|i: int| 0 <= i < st.marks.len() implies m.take(i) =~= st.marks.take(i) by {}
            assert forall|i: int| 0 <= i < st.marks.len() implies m[i] == st.marks[i] by {}
            if m.drop_last() =~= st.marks {
                assert(m.take(st.marks.len() as int) =~= st.marks);
            } else {
                assert(m.drop_last().take(st.marks.len() as int) =~= st.marks);
                assert(m.take(st.marks.len() as int) =~= st.marks);
                assert(m.take(st.marks.len() + 1int) =~= m.drop_last());
            }
        } else {
            assert(nx.marks =~= st.marks);
        }
    }
}

/// The compiled form of the counter law: in the segments of a template,
/// the placeholders whose reference token was empty refer, left to right,
/// to positions 1, 2, 3, ...
pub proof fn lemma_defaulted_placeholders(d: Dialect, s: Seq<char>)
    requires
        compile(d, s) is Ok,
    ensures
        ({
            let st = scan(d, s, s.len())->Ok_0;
            let segs = compile(d, s)->Ok_0;
            let marks = flushed_marks(st.marks, st.pending);
            &&& marks.len() == segs.len()
            &&& forall|i: int|
                0 <= i < marks.len() && #[trigger] marks[i] ==> (segs[i]
                    matches SegmentView::Placeholder { capture, .. } && capture == CaptureView::Index(
                    1 + count_marks(marks.take(i)),
                ))
        }),
{
    lemma_scan_marks(d, s, s.len());
    let st = scan(d, s, s.len())->Ok_0;
    let marks = flushed_marks(st.marks, st.pending);
    assert forall|i: int| 0 <= i < st.marks.len() implies marks.take(i) =~= st.marks.take(i) by {}
}

/// The text that one segment contributes, given what each reference
/// resolves to.
pub open spec fn piece(seg: SegmentView, values: spec_fn(CaptureView) -> Option<Seq<char>>) -> Seq<
    char,
> {
    match seg {
        SegmentView::Text(t) => t,
        SegmentView::Placeholder { padding, capture } => match values(capture) {
            None => Seq::empty(),
            Some(v) => match padding {
                Some(w) => padded(v, w),
                None => v,
            },
        },
    }
}

/// The text that segments render to, given what each reference resolves to.
pub open spec fn rendered(
    segs: Seq<SegmentView>,
    values: spec_fn(CaptureView) -> Option<Seq<char>>,
) -> Seq<char>
    decreases segs.len(),
{
    if segs.len() == 0 {
        Seq::empty()
    } else {
        rendered(segs.drop_last(), values) + piece(segs.last(), values)
    }
}

/// What a provider resolves each reference to.
pub open spec fn values_of<P: Provider>(p: &P) -> spec_fn(CaptureView) -> Option<Seq<char>> {
    |c: CaptureView| p.value_of(c)
}

struct Scanner {
    segments: Vec<Segment>,
    mode: Mode,
    escape: bool,
    pending: String,
    reference: Capture,
    auto: usize,
    defaults: Ghost<Seq<nat>>,
    marks: Ghost<Seq<bool>>,
    defaulted: Ghost<bool>,
}

impl View for Scanner {
    type V = ScanState;

    closed spec fn view(&self) -> ScanState {
        ScanState {
            segments: segments_view(self.segments@),
            mode: self.mode,
            escape: self.escape,
            pending: self.pending@,
            reference: self.reference@,
            auto: self.auto as nat,
            defaults: self.defaults@,
            marks: self.marks@,
            defaulted: self.defaulted@,
        }
    }
}

spec fn outcome(r: Result<(), FormatError>, st: ScanState) -> Result<ScanState, FormatErrorView> {
    match r {
        Ok(_) => Ok(st),
        Err(e) => Err(e@),
    }
}

fn copy_capture(c: &Capture) -> (r: Capture)
    ensures
        r@ == c@,
{
    match c {
        Capture::Index(i) => Capture::Index(*i),
        Capture::Name(n) => Capture::Name(n.clone()),
    }
}

fn read_reference(d: Dialect, token: &String) -> (r: Result<Capture, FormatError>)
    ensures
        match r {
            Ok(c) => reference_of(d, token@) == Ok::<CaptureView, FormatErrorView>(c@),
            Err(e) => reference_of(d, token@) == Err::<CaptureView, FormatErrorView>(e@),
        },
{
    match d {
        Dialect::Named => Ok(Capture::from_token(token.as_str())),
        Dialect::Indexed => match parse_token_str(token.as_str()) {
            Some(i) => Ok(Capture::Index(i)),
            None => Err(FormatError::InvalidIndex(token.clone())),
        },
    }
}

impl Scanner {
    fn new(d: Dialect) -> (r: Scanner)
        ensures
            r@ == initial_state(d),
    {
        let r = Scanner {
            segments: Vec::new(),
            mode: Mode::Literal,
            escape: false,
            pending: String::new(),
            reference: Capture::Index(0),
            auto: 1,
            defaults: Ghost(Seq::empty()),
            marks: Ghost(Seq::empty()),
            defaulted: Ghost(false),
        };
        assert(segments_view(r.segments@) =~= Seq::<SegmentView>::empty());
        r
    }

    fn push_segment(&mut self, seg: Segment, mark: Ghost<bool>)
        ensures
            final(self)@ == (ScanState {
                segments: old(self)@.segments.push(seg@),
                marks: old(self)@.marks.push(mark@),
                ..old(self)@
            }),
    {
        self.segments.push(seg);
        self.marks = Ghost(self.marks@.push(mark@));
        assert(segments_view(self.segments@) =~= segments_view(old(self).segments@).push(seg@));
    }

    fn next_auto(&mut self) -> (r: usize)
        requires
            old(self).auto < usize::MAX,
        ensures
            final(self)@ == take_auto(old(self)@),
            r == old(self).auto,
    {
        let r = self.auto;
        self.auto = self.auto + 1;
        self.defaults = Ghost(self.defaults@.push(r as nat));
        r
    }

    fn emit_placeholder(&mut self, padding: Option<usize>, capture: Capture, mark: Ghost<bool>)
        ensures
            final(self)@ == emit(old(self)@, Segment::Placeholder { padding, capture }@, mark@),
    {
        self.push_segment(Segment::Placeholder { padding, capture }, mark);
        self.defaulted = Ghost(false);
        self.mode = Mode::Literal;
        self.pending = String::new();
        self.reference = Capture::Index(0);
    }

    fn step(&mut self, d: Dialect, i: usize, ch: char) -> (r: Result<(), FormatError>)
        requires
            old(self).mode == Mode::Reference ==> old(self).auto < usize::MAX,
        ensures
            outcome(r, final(self)@) == scan_step(d, old(self)@, i as nat, ch),
    {
        if ch == '\\' && !self.escape {
            self.escape = true;
            return Ok(());
        }
        if self.escape && !(ch == '{' || ch == '}' || ch == '\\') {
            return Err(FormatError::InvalidEscapeCharacter(i, ch));
        }
        if ch == '{' && !self.escape && self.mode == Mode::Literal {
            if !self.pending.as_str().is_empty() {
                let t = self.pending.clone();
                self.push_segment(Segment::Text(t), Ghost(false));
            }
            self.pending = String::new();
            self.mode = Mode::Reference;
            return Ok(());
        }
        if ch == '}' && !self.escape {
            if self.mode == Mode::Literal {
                return Err(FormatError::UnopenedPlaceholder);
            }
            if self.pending.as_str().is_empty() {
                if self.mode == Mode::Reference {
                    let a = self.next_auto();
                    self.emit_placeholder(None, Capture::Index(a), Ghost(true));
                } else {
                    let c = copy_capture(&self.reference);
                    let mark = Ghost(self.defaulted@);
                    self.emit_placeholder(None, c, mark);
                }
                return Ok(());
            }
            if self.mode == Mode::Reference {
                match read_reference(d, &self.pending) {
                    Ok(c) => {
                        self.emit_placeholder(None, c, Ghost(false));
                        return Ok(());
                    },
                    Err(e) => {
                        return Err(e);
                    },
                }
            }
            match parse_token_str(self.pending.as_str()) {
                Some(w) => {
                    let c = copy_capture(&self.reference);
                    let mark = Ghost(self.defaulted@);
                    self.emit_placeholder(Some(w), c, mark);
                    return Ok(());
                },
                None => {
                    return Err(FormatError::InvalidPadding(self.pending.clone()));
                },
            }
        }
        if ch == ':' && self.mode == Mode::Reference {
            if self.pending.as_str().is_empty() {
                let a = self.next_auto();
                self.mode = Mode::Padding;
                self.reference = Capture::Index(a);
                self.defaulted = Ghost(true);
            } else {
                match read_reference(d, &self.pending) {
                    Ok(c) => {
                        self.mode = Mode::Padding;
                        self.reference = c;
                        self.pending = String::new();
                        self.defaulted = Ghost(false);
                    },
                    Err(e) => {
                        return Err(e);
                    },
                }
            }
            return Ok(());
        }
        self.pending.push(ch);
        self.escape = false;
        Ok(())
    }
}

/// Compiles `format` in dialect `d`.
fn compile_segments(d: Dialect, format: &str) -> (r: Result<Vec<Segment>, FormatError>)
    ensures
        match r {
            Ok(v) => compile(d, format@) == Ok::<Seq<SegmentView>, FormatErrorView>(
                segments_view(v@),
            ),
            Err(e) => compile(d, format@) == Err::<Seq<SegmentView>, FormatErrorView>(e@),
        },
{
    let n = format.unicode_len();
    let mut sc = Scanner::new(d);
    let mut i: usize = 0;
    while i < n
        invariant
            n == format@.len(),
            0 <= i <= n,
            scan(d, format@, i as nat) == Ok::<ScanState, FormatErrorView>(sc@),
        decreases n - i,
    {
        proof {
            lemma_scan_counter(d, format@, i as nat);
        }
        let ch = format.get_char(i);
        let r = sc.step(d, i, ch);
        if let Err(e) = r {
            assert(scan(d, format@, (i + 1) as nat) == Err::<ScanState, FormatErrorView>(e@));
            proof {
                lemma_scan_error_sticks(d, format@, (i + 1) as nat, n as nat);
            }
            return Err(e);
        }
        i = i + 1;
    }
    if sc.mode != Mode::Literal {
        return Err(FormatError::UnclosedPlaceholder);
    }
    if !sc.pending.as_str().is_empty() {
        let t = sc.pending.clone();
        sc.push_segment(Segment::Text(t), Ghost(false));
    }
    Ok(sc.segments)
}

proof fn lemma_scan_error_sticks(d: Dialect, s: Seq<char>, m: nat, n: nat)
    requires
        m <= n,
        scan(d, s, m) is Err,
    ensures
        scan(d, s, n) == scan(d, s, m),
    decreases n - m,
{
    if m < n {
        lemma_scan_error_sticks(d, s, m, (n - 1) as nat);
    }
}

/// Appends what `segs` render to against `provider` to `out`.
fn render_into<P: Provider>(segs: &Vec<Segment>, provider: &P, out: &mut String)
    ensures
        final(out)@ == old(out)@ + rendered(segments_view(segs@), values_of(provider)),
{
    let ghost sv = segments_view(segs@);
    let mut j: usize = 0;
    while j < segs.len()
        invariant
            sv == segments_view(segs@),
            0 <= j <= segs@.len(),
            out@ == old(out)@ + rendered(sv.take(j as int), values_of(provider)),
        decreases segs@.len() - j,
    {
        assert(sv.take(j + 1).drop_last() =~= sv.take(j as int));
        assert(sv.take(j + 1).last() == segs@[j as int]@);
        match &segs[j] {
            Segment::Text(t) => {
                out.append(t.as_str());
            },
            Segment::Placeholder { padding, capture } => {
                match provider.provide(capture) {
                    None => {},
                    Some(v) => match padding {
                        Some(w) => {
                            let t = pad_value(v, *w);
                            out.append(t.as_str());
                        },
                        None => {
                            out.append(v);
                        },
                    },
                }
            },
        }
        assert(out@ =~= old(out)@ + rendered(sv.take(j + 1), values_of(provider)));
        j = j + 1;
    }
    assert(sv.take(j as int) =~= sv);
}

/// A compiled template of the named dialect.
#[derive(Debug, PartialEq)]
pub struct Formatter(Vec<Segment>);

impl View for Formatter {
    type V = Seq<SegmentView>;

    closed spec fn view(&self) -> Seq<SegmentView> {
        segments_view(self.0@)
    }
}

impl Formatter {
    /// Compiles a template: `{}` is the next defaulted reference, `{N}` a
    /// position, `{name}` a name, `{R:P}` adds zero padding to width `P`,
    /// and `\{`, `\}`, `\\` are literal characters.
    pub fn new(format: &str) -> (r: Result<Formatter, FormatError>)
        ensures
            match r {
                Ok(f) => compile(Dialect::Named, format@) == Ok::<
                    Seq<SegmentView>,
                    FormatErrorView,
                >(f@),
                Err(e) => compile(Dialect::Named, format@) == Err::<
                    Seq<SegmentView>,
                    FormatErrorView,
                >(e@),
            },
    {
        match compile_segments(Dialect::Named, format) {
            Ok(v) => Ok(Formatter(v)),
            Err(e) => Err(e),
        }
    }

    /// Renders the template against `provider`: a reference without a value
    /// contributes nothing.
    pub fn format<P: Provider>(&self, provider: P) -> (r: String)
        ensures
            r@ == rendered(self@, values_of(&provider)),
    {
        let mut out = String::new();
        render_into(&self.0, &provider, &mut out);
        out
    }
}

/// A compiled template of the indexed dialect.
#[derive(Debug, PartialEq)]
pub struct Output(Vec<Segment>);

impl View for Output {
    type V = Seq<SegmentView>;

    closed spec fn view(&self) -> Seq<SegmentView> {
        segments_view(self.0@)
    }
}

impl Output {
    /// Compiles an output pattern whose references are positions only.
    pub fn new(format: &str) -> (r: Result<Output, FormatError>)
        ensures
            match r {
                Ok(f) => compile(Dialect::Indexed, format@) == Ok::<
                    Seq<SegmentView>,
                    FormatErrorView,
                >(f@),
                Err(e) => compile(Dialect::Indexed, format@) == Err::<
                    Seq<SegmentView>,
                    FormatErrorView,
                >(e@),
            },
    {
        match compile_segments(Dialect::Indexed, format) {
            Ok(v) => Ok(Output(v)),
            Err(e) => Err(e),
        }
    }

    /// Renders the pattern against a list of values.
    pub fn format(&self, vars: &[&str]) -> (r: String)
        ensures
            r@ == rendered(self@, values_of(&vars)),
    {
        let mut out = String::new();
        render_into(&self.0, &vars, &mut out);
        out
    }
}

/// The formatter for an optional template: none without one.
pub fn read_output(output: Option<&str>) -> (r: Result<Option<Formatter>, FormatError>)
    ensures
        match output {
            None => r matches Ok(None),
            Some(s) => match r {
                Ok(Some(f)) => compile(Dialect::Named, s@) == Ok::<
                    Seq<SegmentView>,
                    FormatErrorView,
                >(f@),
                Ok(None) => false,
                Err(e) => compile(Dialect::Named, s@) == Err::<
                    Seq<SegmentView>,
                    FormatErrorView,
                >(e@),
            },
        },
{
    match output {
        None => Ok(None),
        Some(s) => match Formatter::new(s) {
            Ok(f) => Ok(Some(f)),
            Err(e) => Err(e),
        },
    }
}

} // verus!
