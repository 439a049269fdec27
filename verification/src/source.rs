//! Source text and the diagnostics that compilation passes report on it.

use vstd::prelude::*;

verus! {

/// A half-open range of byte offsets into the source text.
#[derive(Clone, Copy, Debug, PartialEq, Eq)]
pub struct Span {
    pub start: usize,
    pub end: usize,
}

/// A diagnostic: what is wrong, where, and optionally how to mend it.
#[derive(Debug)]
pub struct SyntaxError {
    pub message: String,
    pub span: Span,
    pub help: Option<String>,
}

/// The mathematical content of a [`SyntaxError`].
pub struct SyntaxErrorView {
    pub message: Seq<char>,
    pub span: Span,
    pub help: Option<Seq<char>>,
}

impl View for SyntaxError {
    type V = SyntaxErrorView;

    open spec fn view(&self) -> SyntaxErrorView {
        SyntaxErrorView {
            message: self.message@,
            span: self.span,
            help: match self.help {
                Some(help) => Some(help@),
                None => None,
            },
        }
    }
}

impl SyntaxError {
    /// A diagnostic without help text.
    pub fn new(message: String, span: Span) -> (error: Self)
        ensures
            error@ == (SyntaxErrorView { message: message@, span, help: None }),
    {
        SyntaxError { message, span, help: None }
    }

    /// The same diagnostic with the given help text.
    pub fn with_help(self, help: String) -> (error: Self)
        ensures
            error@ == (SyntaxErrorView { help: Some(help@), ..self@ }),
    {
        SyntaxError { message: self.message, span: self.span, help: Some(help) }
    }
}

/// An append-only collector of diagnostics.
#[derive(Debug)]
pub struct ErrorReporter {
    pub errors: Vec<SyntaxError>,
}

impl View for ErrorReporter {
    type V = Seq<SyntaxErrorView>;

    open spec fn view(&self) -> Seq<SyntaxErrorView> {
        self.errors@.map_values(|error: SyntaxError| error@)
    }
}

impl ErrorReporter {
    /// A collector that holds no diagnostics.
    pub fn new() -> (reporter: Self)
        ensures
            reporter@ == Seq::<SyntaxErrorView>::empty(),
    {
        let reporter = ErrorReporter { errors: Vec::new() };
        assert(reporter@ =~= Seq::<SyntaxErrorView>::empty());
        reporter
    }

    /// Appends a diagnostic.
    pub fn add_error(&mut self, error: SyntaxError)
        ensures
            final(self)@ == old(self)@.push(error@),
    {
        self.errors.push(error);
        assert(self@ =~= old(self)@.push(error@));
    }

    /// The number of diagnostics collected so far.
    pub fn len(&self) -> (len: usize)
        ensures
            len == self@.len(),
    {
        self.errors.len()
    }

    /// Whether at least one diagnostic was collected.
    pub fn has_errors(&self) -> (some: bool)
        ensures
            some == (self@.len() > 0),
    {
        self.errors.len() > 0
    }
}

/// A piece of source text together with the diagnostics reported on it.
#[derive(Debug)]
pub struct Source {
    pub content: String,
    pub errors: ErrorReporter,
}

impl Source {
    /// Source text on which nothing has been reported yet.
    pub fn new(content: String) -> (source: Self)
        ensures
            source.content@ == content@,
            source.errors@ == Seq::<SyntaxErrorView>::empty(),
    {
        Source { content, errors: ErrorReporter::new() }
    }
}

} // verus!
