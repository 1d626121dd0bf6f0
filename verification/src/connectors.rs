//! Debugging of connectors: when it is switched on, and the record of
//! requests, responses and selections that a request gathers while it is.
use crate::seqs::{lemma_deep_view_empty, lemma_deep_view_push};
use crate::text::str_eq;
use vstd::prelude::*;
use vstd::string::*;

verus! {

/// The name of the request header that asks for debugging.
pub const CONNECTORS_DEBUG_HEADER_NAME: &'static str = "Apollo-Connectors-Debugging";

/// The name of the environment variable that switches debugging on.
pub const CONNECTORS_DEBUG_ENV: &'static str = "APOLLO_CONNECTORS_DEBUGGING";

/// Whether debugging is switched on: by configuration, or by the environment
/// variable where it is set to `true`.
pub fn debugging_enabled(configured: bool, environment: Option<&str>) -> (r: bool)
    ensures
        r == (configured || (environment matches Some(v) && v@ == "true"@)),
{
    configured || match environment {
        Some(v) => str_eq(v, "true"),
        None => false,
    }
}

/// Whether a request is debugged: debugging is switched on and the request's
/// debugging header is `true`.
pub fn request_debugging_enabled(enabled: bool, header: Option<&str>) -> (r: bool)
    ensures
        r == (enabled && (header matches Some(v) && v@ == "true"@)),
{
    enabled && match header {
        Some(v) => str_eq(v, "true"),
        None => false,
    }
}

/// What is said where a service has no connector.
pub open spec fn msg_no_connector() -> Seq<char> {
    "no connector found"@
}

/// What is said where a service has no HTTP client.
pub open spec fn msg_no_client() -> Seq<char> {
    "no http client found"@
}

/// What a request to a service is executed with: the connector of the
/// service and its HTTP client. A service without connector is refused, and
/// then one without client.
pub fn select_connector<C, H>(connector: Option<C>, client: Option<H>) -> (r: Result<(C, H), String>)
    ensures
        match (connector, client) {
            (Some(c), Some(h)) => r == Ok::<(C, H), String>((c, h)),
            (None, _) => r is Err && r->Err_0@ == msg_no_connector(),
            (Some(_), None) => r is Err && r->Err_0@ == msg_no_client(),
        },
{
    match connector {
        None => Err(String::from_str("no connector found")),
        Some(c) => match client {
            None => Err(String::from_str("no http client found")),
            Some(h) => Ok((c, h)),
        },
    }
}

/// One error of a selection: its message and the path at which it arose.
pub struct ApplyError {
    pub message: String,
    pub path: String,
}

/// The mathematical value of an `ApplyError`.
pub struct ApplyErrorView {
    pub message: Seq<char>,
    pub path: Seq<char>,
}

impl DeepView for ApplyError {
    type V = ApplyErrorView;

    open spec fn deep_view(&self) -> ApplyErrorView {
        ApplyErrorView { message: self.message@, path: self.path@ }
    }
}

/// A run of equal errors: the error and how often it came in a row.
#[derive(Debug, PartialEq, Eq)]
pub struct ErrorGroup {
    pub message: String,
    pub path: String,
    pub count: usize,
}

/// The mathematical value of an `ErrorGroup`.
pub struct ErrorGroupView {
    pub message: Seq<char>,
    pub path: Seq<char>,
    pub count: nat,
}

impl DeepView for ErrorGroup {
    type V = ErrorGroupView;

    open spec fn deep_view(&self) -> ErrorGroupView {
        ErrorGroupView { message: self.message@, path: self.path@, count: self.count as nat }
    }
}

/// The runs of equal errors among `errors`, in order: an error that equals
/// the one before it lengthens the last run, any other starts a run.
pub open spec fn aggregate(errors: Seq<ApplyErrorView>) -> Seq<ErrorGroupView>
    decreases errors.len(),
{
    if errors.len() == 0 {
        Seq::empty()
    } else {
        let before = aggregate(errors.drop_last());
        let e = errors.last();
        if errors.len() >= 2 && errors[errors.len() - 2] == e {
            before.update(
                before.len() - 1,
                ErrorGroupView { count: before.last().count + 1, ..before.last() },
            )
        } else {
            before.push(ErrorGroupView { message: e.message, path: e.path, count: 1 })
        }
    }
}

/// Every run holds an error, there is a run as soon as there is an error,
/// and no run is longer than the errors are many.
pub proof fn lemma_aggregate(errors: Seq<ApplyErrorView>)
    ensures
        aggregate(errors).len() <= errors.len(),
        errors.len() > 0 ==> aggregate(errors).len() > 0,
        errors.len() > 0 ==> aggregate(errors).last().count <= errors.len(),
        errors.len() > 0 ==> aggregate(errors).last().message == errors.last().message,
        errors.len() > 0 ==> aggregate(errors).last().path == errors.last().path,
    decreases errors.len(),
{
    if errors.len() > 0 {
        lemma_aggregate(errors.drop_last());
    }
}

/// Groups the errors that follow one another and are equal, and counts each
/// group.
pub fn aggregate_apply_to_errors(errors: &Vec<ApplyError>) -> (r: Vec<ErrorGroup>)
    ensures
        r.deep_view() == aggregate(errors.deep_view()),
{
    let ghost all = errors.deep_view();
    let mut groups: Vec<ErrorGroup> = Vec::new();
    proof {
        lemma_deep_view_empty(groups);
        assert(all.take(0) =~= Seq::<ApplyErrorView>::empty());
    }
    let mut i: usize = 0;
    while i < errors.len()
        invariant
            i <= errors.len(),
            all == errors.deep_view(),
            groups.deep_view() == aggregate(all.take(i as int)),
        decreases errors.len() - i,
    {
        let e = &errors[i];
        proof {
            lemma_aggregate(all.take(i as int));
            assert(all.take(i + 1).drop_last() =~= all.take(i as int));
            assert(all.take(i + 1).last() == all[i as int]);
            if i > 0 {
                assert(all.take(i + 1)[i - 1] == all[i - 1]);
            }
        }
        let same = i > 0 && errors[i - 1].message == e.message && errors[i - 1].path == e.path;
        if same {
            let last = groups.len() - 1;
            let ghost before = groups;
            let count = groups[last].count + 1;
            groups[last].count = count;
            proof {
                assert(groups.deep_view() =~= before.deep_view().update(
                    last as int,
                    ErrorGroupView {
                        count: before.deep_view()[last as int].count + 1,
                        ..before.deep_view()[last as int]
                    },
                ));
            }
        } else {
            let ghost before = groups;
            let g = ErrorGroup { message: e.message.clone(), path: e.path.clone(), count: 1 };
            groups.push(g);
            proof {
                lemma_deep_view_push(before, groups, g);
            }
        }
        i += 1;
    }
    assert(all.take(errors.len() as int) =~= all);
    groups
}

/// The body of a recorded request or response: its kind, and its content as
/// JSON text.
#[derive(Debug, PartialEq, Eq)]
pub struct ConnectorDebugBody {
    pub kind: String,
    pub content: String,
}

/// A recorded request.
#[derive(Debug, PartialEq, Eq)]
pub struct ConnectorDebugHttpRequest {
    pub url: String,
    pub method: String,
    pub headers: Vec<(String, String)>,
    pub body: Option<ConnectorDebugBody>,
}

/// A recorded response.
#[derive(Debug, PartialEq, Eq)]
pub struct ConnectorDebugHttpResponse {
    pub status: u16,
    pub headers: Vec<(String, String)>,
    pub body: ConnectorDebugBody,
}

/// A recorded selection: its source, its result as JSON text where it has
/// one, and the runs of its errors.
#[derive(Debug, PartialEq, Eq)]
pub struct ConnectorDebugSelection {
    pub source: String,
    pub result: Option<String>,
    pub errors: Vec<ErrorGroup>,
}

/// What a debugged request gathers: its requests, their responses, and for
/// each response the selection that was applied to it, or nothing where the
/// response could not be read.
#[derive(Debug, PartialEq, Eq)]
pub struct ConnectorContext {
    pub requests: Vec<ConnectorDebugHttpRequest>,
    pub responses: Vec<ConnectorDebugHttpResponse>,
    pub selections: Vec<Option<ConnectorDebugSelection>>,
}

/// The smaller of two numbers.
pub open spec fn least(a: int, b: int) -> int {
    if a <= b {
        a
    } else {
        b
    }
}

impl ConnectorContext {
    /// A record without entries.
    pub fn new() -> (r: ConnectorContext)
        ensures
            r.requests@.len() == 0,
            r.responses@.len() == 0,
            r.selections@.len() == 0,
    {
        ConnectorContext { requests: Vec::new(), responses: Vec::new(), selections: Vec::new() }
    }

    /// Records a request.
    pub fn push_request(&mut self, request: ConnectorDebugHttpRequest)
        ensures
            final(self).requests@ == old(self).requests@.push(request),
            final(self).responses@ == old(self).responses@,
            final(self).selections@ == old(self).selections@,
    {
        self.requests.push(request);
    }

    /// Records a response whose body was read as JSON.
    pub fn push_response(&mut self, status: u16, headers: Vec<(String, String)>, json_body: String)
        ensures
            final(self).requests@ == old(self).requests@,
            final(self).responses@.len() == old(self).responses@.len() + 1,
            final(self).responses@.drop_last() == old(self).responses@,
            final(self).responses@.last().status == status,
            final(self).responses@.last().headers == headers,
            final(self).responses@.last().body.kind@ == "json"@,
            final(self).responses@.last().body.content == json_body,
            final(self).selections@ == old(self).selections@,
    {
        let response = ConnectorDebugHttpResponse {
            status,
            headers,
            body: ConnectorDebugBody { kind: String::from_str("json"), content: json_body },
        };
        self.responses.push(response);
        assert(self.responses@.drop_last() =~= old(self).responses@);
    }

    /// Records a response whose body could not be read, and that no selection
    /// was applied to it.
    pub fn push_invalid_response(
        &mut self,
        status: u16,
        headers: Vec<(String, String)>,
        body: String,
    )
        ensures
            final(self).requests@ == old(self).requests@,
            final(self).responses@.len() == old(self).responses@.len() + 1,
            final(self).responses@.drop_last() == old(self).responses@,
            final(self).responses@.last().status == status,
            final(self).responses@.last().headers == headers,
            final(self).responses@.last().body.kind@ == "invalid"@,
            final(self).responses@.last().body.content == body,
            final(self).selections@ == old(self).selections@.push(None),
    {
        let response = ConnectorDebugHttpResponse {
            status,
            headers,
            body: ConnectorDebugBody { kind: String::from_str("invalid"), content: body },
        };
        self.responses.push(response);
        self.selections.push(None);
        assert(self.responses@.drop_last() =~= old(self).responses@);
    }

    /// Records the selection that was applied to a response, with the runs of
    /// its errors.
    pub fn push_mapping(&mut self, source: String, result: Option<String>, errors: Vec<ApplyError>)
        ensures
            final(self).requests@ == old(self).requests@,
            final(self).responses@ == old(self).responses@,
            final(self).selections@.len() == old(self).selections@.len() + 1,
            final(self).selections@.drop_last() == old(self).selections@,
            final(self).selections@.last() matches Some(s) && s.source == source && s.result
                == result && s.errors.deep_view() == aggregate(errors.deep_view()),
    {
        let selection = ConnectorDebugSelection {
            source,
            result,
            errors: aggregate_apply_to_errors(&errors),
        };
        self.selections.push(Some(selection));
        assert(self.selections@.drop_last() =~= old(self).selections@);
    }

    /// The number of complete entries of the record: of requests that have a
    /// response and a selection.
    pub fn complete_entries(&self) -> (n: usize)
        ensures
            n == least(
                least(self.requests@.len() as int, self.responses@.len() as int),
                self.selections@.len() as int,
            ),
    {
        let mut n = self.requests.len();
        if self.responses.len() < n {
            n = self.responses.len();
        }
        if self.selections.len() < n {
            n = self.selections.len();
        }
        n
    }
}

} // verus!
