use vstd::prelude::*;

use crate::text::join_text;

verus! {

/// Everything that can go wrong in the library.
///
/// Errors that come from outside (I/O, the WebSocket layer, the JSON reader)
/// are carried as their message text.
#[derive(Debug)]
pub enum StargridError {
    ParseError(String),
    UnexpectedValue(String, String),
    InvalidFormat(String),
    InvalidListenerMessage(String),
    IOError(String),
    WebSocketError(String),
    JsonError(String),
    Generic(String),
    BudgetError(String),
    Aggregate(Vec<StargridError>),
}

/// The mathematical value of an error.
pub enum ErrorView {
    ParseError(Seq<char>),
    UnexpectedValue(Seq<char>, Seq<char>),
    InvalidFormat(Seq<char>),
    InvalidListenerMessage(Seq<char>),
    IOError(Seq<char>),
    WebSocketError(Seq<char>),
    JsonError(Seq<char>),
    Generic(Seq<char>),
    BudgetError(Seq<char>),
    Aggregate(Seq<ErrorView>),
}

pub open spec fn error_view(e: StargridError) -> ErrorView
    decreases e,
{
    match e {
        StargridError::ParseError(s) => ErrorView::ParseError(s@),
        StargridError::UnexpectedValue(a, b) => ErrorView::UnexpectedValue(a@, b@),
        StargridError::InvalidFormat(s) => ErrorView::InvalidFormat(s@),
        StargridError::InvalidListenerMessage(s) => ErrorView::InvalidListenerMessage(s@),
        StargridError::IOError(s) => ErrorView::IOError(s@),
        StargridError::WebSocketError(s) => ErrorView::WebSocketError(s@),
        StargridError::JsonError(s) => ErrorView::JsonError(s@),
        StargridError::Generic(s) => ErrorView::Generic(s@),
        StargridError::BudgetError(s) => ErrorView::BudgetError(s@),
        StargridError::Aggregate(v) => ErrorView::Aggregate(
            Seq::new(
                v.len() as nat,
                |i: int|
                    if 0 <= i < v.len() {
                        error_view(v@[i])
                    } else {
                        ErrorView::Generic(Seq::empty())
                    },
            ),
        ),
    }
}

impl View for StargridError {
    type V = ErrorView;

    open spec fn view(&self) -> ErrorView {
        error_view(*self)
    }
}

/// The text an error is shown as.
pub open spec fn error_message(e: ErrorView) -> Seq<char>
    decreases e, 0nat,
{
    match e {
        ErrorView::ParseError(s) => "Failed to parse: "@ + s,
        ErrorView::UnexpectedValue(a, b) => "Expected value \""@ + a + "\", got \""@ + b + "\""@,
        ErrorView::InvalidFormat(_) => "Invalid Block format"@,
        ErrorView::InvalidListenerMessage(s) => "Invalid WebSocket message: "@ + s,
        ErrorView::IOError(s) => "IO Error: "@ + s,
        ErrorView::WebSocketError(s) => "Tungstenite Error: "@ + s,
        ErrorView::JsonError(s) => "JSON Error: "@ + s,
        ErrorView::Generic(s) => s,
        ErrorView::BudgetError(s) => "Budget exceeded: "@ + s,
        ErrorView::Aggregate(es) => "Multiple errors: "@ + joined_messages(es),
    }
}

/// The texts of `es`, separated by "; ".
pub open spec fn joined_messages(es: Seq<ErrorView>) -> Seq<char>
    decreases es, 1nat,
{
    if es.len() == 0 {
        Seq::empty()
    } else if es.len() == 1 {
        error_message(es[0])
    } else {
        joined_messages(es.drop_last()) + "; "@ + error_message(es.last())
    }
}

impl StargridError {
    /// The error for a value other than the one expected; both are given as debug text.
    pub fn unexpected_value(expected: String, got: String) -> (r: Self)
        ensures
            r@ == ErrorView::UnexpectedValue(expected@, got@),
    {
        StargridError::UnexpectedValue(expected, got)
    }

    /// The text this error is shown as.
    pub fn message(&self) -> (r: String)
        ensures
            r@ == error_message(self@),
        decreases self,
    {
        match self {
            StargridError::ParseError(s) => join_text("Failed to parse: ", s.as_str()),
            StargridError::UnexpectedValue(a, b) => {
                let mut r = join_text("Expected value \"", a.as_str());
                r.append("\", got \"");
                r.append(b.as_str());
                r.append("\"");
                r
            },
            StargridError::InvalidFormat(_) => "Invalid Block format".to_owned(),
            StargridError::InvalidListenerMessage(s) => join_text(
                "Invalid WebSocket message: ",
                s.as_str(),
            ),
            StargridError::IOError(s) => join_text("IO Error: ", s.as_str()),
            StargridError::WebSocketError(s) => join_text("Tungstenite Error: ", s.as_str()),
            StargridError::JsonError(s) => join_text("JSON Error: ", s.as_str()),
            StargridError::Generic(s) => s.clone(),
            StargridError::BudgetError(s) => join_text("Budget exceeded: ", s.as_str()),
            StargridError::Aggregate(errs) => {
                let ghost es = self@->Aggregate_0;
                let mut joined = String::new();
                let n = errs.len();
                for i in 0..n
                    invariant
                        n == errs.len(),
                        *self == StargridError::Aggregate(*errs),
                        es == self@->Aggregate_0,
                        es.len() == n,
                        forall|j: int| 0 <= j < n ==> #[trigger] es[j] == errs@[j]@,
                        joined@ == joined_messages(es.take(i as int)),
                {
                    proof {
                        assert(decreases_to!(*self => self->Aggregate_0));
                        assert(decreases_to!(*errs => errs@));
                        assert(decreases_to!(errs@ => errs@[i as int]));
                    }
                    let m = errs[i].message();
                    if i > 0 {
                        joined.append("; ");
                    }
                    joined.append(m.as_str());
                    proof {
                        let t = es.take(i + 1);
                        assert(t.drop_last() =~= es.take(i as int));
                        assert(t.last() == es[i as int]);
                        if i == 0 {
                            assert(es.take(0) =~= Seq::<ErrorView>::empty());
                            assert(joined@ =~= error_message(es[0]));
                        } else {
                            assert(joined@ =~= joined_messages(es.take(i as int)) + "; "@
                                + error_message(es[i as int]));
                        }
                    }
                }
                assert(es.take(n as int) =~= es);
                join_text("Multiple errors: ", joined.as_str())
            },
        }
    }
}

impl From<String> for StargridError {
    fn from(s: String) -> (r: Self) {
        StargridError::Generic(s)
    }
}

impl vstd::std_specs::convert::FromSpecImpl<String> for StargridError {
    open spec fn obeys_from_spec() -> bool {
        true
    }

    open spec fn from_spec(s: String) -> StargridError {
        StargridError::Generic(s)
    }
}

} // verus!
