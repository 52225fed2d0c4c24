//! References to captured values, and the providers that resolve them.
use vstd::prelude::*;
use crate::decimal::parse_token;

verus! {

/// A reference to a value: by position or by name.
#[derive(Debug, PartialEq, Clone)]
pub enum Capture {
    Index(usize),
    Name(String),
}

/// The mathematical value of a `Capture`.
pub enum CaptureView {
    Index(nat),
    Name(Seq<char>),
}

impl View for Capture {
    type V = CaptureView;

    open spec fn view(&self) -> CaptureView {
        match self {
            Capture::Index(i) => CaptureView::Index(*i as nat),
            Capture::Name(n) => CaptureView::Name(n@),
        }
    }
}

/// A token read as a reference: an unsigned integer (optionally behind `+`)
/// is an index, anything else a name.
pub open spec fn capture_of(token: Seq<char>) -> CaptureView {
    match parse_token(token) {
        Some(i) => CaptureView::Index(i as nat),
        None => CaptureView::Name(token),
    }
}

impl Capture {
    /// Reads a token as a reference.
    pub fn from_token(token: &str) -> (r: Capture)
        ensures
            r@ == capture_of(token@),
    {
        match crate::decimal::parse_token_str(token) {
            Some(i) => Capture::Index(i),
            None => Capture::Name(token.to_owned()),
        }
    }
}

pub open spec fn opt_str_view(o: Option<&str>) -> Option<Seq<char>> {
    match o {
        Some(s) => Some(s@),
        None => None,
    }
}

pub open spec fn opt_string_view(o: Option<String>) -> Option<Seq<char>> {
    match o {
        Some(s) => Some(s@),
        None => None,
    }
}

/// Something that resolves references to values.
pub trait Provider {
    /// The value that `capture` resolves to, if any.
    spec fn value_of(&self, capture: CaptureView) -> Option<Seq<char>>;

    fn provide(&self, capture: &Capture) -> (r: Option<&str>)
        ensures
            opt_str_view(r) == self.value_of(capture@),
    ;
}

/// The value at position `i` of a list of texts.
pub open spec fn list_value(list: Seq<Seq<char>>, capture: CaptureView) -> Option<Seq<char>> {
    match capture {
        CaptureView::Index(i) => if i < list.len() {
            Some(list[i as int])
        } else {
            None
        },
        CaptureView::Name(_) => None,
    }
}

pub open spec fn str_list_view(v: Seq<&str>) -> Seq<Seq<char>> {
    v.map_values(|s: &str| s@)
}

/// A plain list resolves positions only; a name never has a value.
impl<'a> Provider for Vec<&'a str> {
    open spec fn value_of(&self, capture: CaptureView) -> Option<Seq<char>> {
        list_value(str_list_view(self@), capture)
    }

    fn provide(&self, capture: &Capture) -> (r: Option<&str>) {
        match capture {
            Capture::Index(i) => if *i < self.len() {
                Some(self[*i])
            } else {
                None
            },
            Capture::Name(_) => None,
        }
    }
}

impl<'a, 'b> Provider for &'b [&'a str] {
    open spec fn value_of(&self, capture: CaptureView) -> Option<Seq<char>> {
        list_value(str_list_view(self@), capture)
    }

    fn provide(&self, capture: &Capture) -> (r: Option<&str>) {
        match capture {
            Capture::Index(i) => if *i < self.len() {
                Some(self[*i])
            } else {
                None
            },
            Capture::Name(_) => None,
        }
    }
}

} // verus!
