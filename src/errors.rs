//! Errors of the template language and of source configuration.
use vstd::prelude::*;

verus! {

/// Why a template failed to compile.
#[derive(Debug, PartialEq)]
pub enum FormatError {
    /// A `\` followed by a character that cannot be escaped, with the
    /// character's position (counted in characters) and the character.
    InvalidEscapeCharacter(usize, char),
    UnclosedPlaceholder,
    UnopenedPlaceholder,
    InvalidIndex(String),
    InvalidPadding(String),
    EmptyFormatter,
}

/// The mathematical value of a `FormatError`.
pub enum FormatErrorView {
    InvalidEscapeCharacter(nat, char),
    UnclosedPlaceholder,
    UnopenedPlaceholder,
    InvalidIndex(Seq<char>),
    InvalidPadding(Seq<char>),
    EmptyFormatter,
}

impl View for FormatError {
    type V = FormatErrorView;

    open spec fn view(&self) -> FormatErrorView {
        match self {
            FormatError::InvalidEscapeCharacter(i, c) => FormatErrorView::InvalidEscapeCharacter(
                *i as nat,
                *c,
            ),
            FormatError::UnclosedPlaceholder => FormatErrorView::UnclosedPlaceholder,
            FormatError::UnopenedPlaceholder => FormatErrorView::UnopenedPlaceholder,
            FormatError::InvalidIndex(s) => FormatErrorView::InvalidIndex(s@),
            FormatError::InvalidPadding(s) => FormatErrorView::InvalidPadding(s@),
            FormatError::EmptyFormatter => FormatErrorView::EmptyFormatter,
        }
    }
}

/// The text shown to a user for a template error.
pub open spec fn format_error_text(e: FormatErrorView) -> Seq<char> {
    match e {
        FormatErrorView::InvalidEscapeCharacter(i, c) => "[output-format] invalid escape character of '"@
            + seq![c] + "' at '"@ + crate::decimal::decimal(i) + "'"@,
        FormatErrorView::UnclosedPlaceholder =>
            "[output-format] all opened placeholders must be closed by '}'"@,
        FormatErrorView::UnopenedPlaceholder =>
            "[output-format] an unopened placeholder could not be closed by '}'"@,
        FormatErrorView::InvalidIndex(s) => "[output-format] unable to parse index of '"@ + s
            + "'"@,
        FormatErrorView::InvalidPadding(s) => "[output-format] unable to parse padding of '"@ + s
            + "'"@,
        FormatErrorView::EmptyFormatter => "[output-format] output formatter must be set"@,
    }
}

impl FormatError {
    /// The message that describes this error.
    pub fn message(&self) -> (r: String)
        ensures
            r@ == format_error_text(self@),
    {
        match self {
            FormatError::InvalidEscapeCharacter(i, c) => {
                let mut s = String::from_str("[output-format] invalid escape character of '");
                s.push(*c);
                s.append("' at '");
                let digits = crate::decimal::decimal_string(*i);
                s.append(digits.as_str());
                s.append("'");
                s
            },
            FormatError::UnclosedPlaceholder => String::from_str(
                "[output-format] all opened placeholders must be closed by '}'",
            ),
            FormatError::UnopenedPlaceholder => String::from_str(
                "[output-format] an unopened placeholder could not be closed by '}'",
            ),
            FormatError::InvalidIndex(index) => {
                let mut s = String::from_str("[output-format] unable to parse index of '");
                s.append(index.as_str());
                s.append("'");
                s
            },
            FormatError::InvalidPadding(padding) => {
                let mut s = String::from_str("[output-format] unable to parse padding of '");
                s.append(padding.as_str());
                s.append("'");
                s
            },
            FormatError::EmptyFormatter => String::from_str(
                "[output-format] output formatter must be set",
            ),
        }
    }
}

/// A sort order token that is neither ascending nor descending.
#[derive(Debug)]
pub struct SortOrderError(String);

impl SortOrderError {
    pub fn new(invalid_order: &str) -> (r: Self)
        ensures
            r.token() == invalid_order@,
    {
        SortOrderError(invalid_order.to_owned())
    }

    /// The token that was refused.
    pub closed spec fn token(&self) -> Seq<char> {
        self.0@
    }

    /// The message that describes this error.
    pub fn message(&self) -> (r: String)
        ensures
            r@ == "invalid sort order: "@ + self.token(),
    {
        let mut s = String::from_str("invalid sort order: ");
        s.append(self.0.as_str());
        s
    }
}

/// A source of candidates that could not be set up.
#[derive(Debug)]
pub struct SourceError(String);

impl SourceError {
    pub fn new(message: String) -> (r: Self)
        ensures
            r.text() == message@,
    {
        SourceError(message)
    }

    /// What went wrong, in words.
    pub closed spec fn text(&self) -> Seq<char> {
        self.0@
    }

    /// The message that describes this error.
    pub fn message(&self) -> (r: &str)
        ensures
            r@ == self.text(),
    {
        self.0.as_str()
    }
}

/// An error that is nothing but a borrowed message.
#[derive(Debug)]
pub struct StrError<'a>(&'a str);

impl<'a> StrError<'a> {
    pub fn boxed(msg: &'a str) -> (r: Box<StrError<'a>>)
        ensures
            r.text() == msg@,
    {
        Box::new(StrError(msg))
    }

    /// The message, as a sequence of characters.
    pub closed spec fn text(&self) -> Seq<char> {
        self.0@
    }

    /// The message that describes this error.
    pub fn message(&self) -> (r: &'a str)
        ensures
            r@ == self.text(),
    {
        self.0
    }
}

} // verus!
