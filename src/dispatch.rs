use vstd::prelude::*;
use crate::router::{action_of, route, Action, Method};
use crate::store::{is_lowest_free, RecordStore};

verus! {

/// The stored payload. It carries no data of its own.
#[derive(Debug, Clone, Copy, PartialEq, Eq, Structural)]
pub struct UserData;

impl UserData {
    /// The payload as text: an empty JSON object.
    pub fn render(&self) -> (r: Vec<u8>)
        ensures
            r@ == rendered_user(),
    {
        let mut r: Vec<u8> = Vec::new();
        r.push(123u8);
        r.push(125u8);
        r
    }
}

/// `{}`
pub open spec fn rendered_user() -> Seq<u8> {
    seq![123u8, 125u8]
}

/// The result class of a request.
#[derive(Debug, Clone, Copy, PartialEq, Eq, Structural)]
pub enum Status {
    Success,
    BadRequest,
    NotFound,
    MethodNotAllowed,
}

impl Status {
    /// The protocol's numeric status code.
    pub fn code(&self) -> (c: u16)
        ensures
            c == status_code(*self),
    {
        match self {
            Status::Success => 200,
            Status::BadRequest => 400,
            Status::NotFound => 404,
            Status::MethodNotAllowed => 405,
        }
    }
}

pub open spec fn status_code(s: Status) -> u16 {
    match s {
        Status::Success => 200,
        Status::BadRequest => 400,
        Status::NotFound => 404,
        Status::MethodNotAllowed => 405,
    }
}

/// A response body. The landing page's content is supplied by the server.
#[derive(Debug)]
pub enum Body {
    Empty,
    Landing,
    Text(Vec<u8>),
}

#[derive(Debug)]
pub struct Response {
    pub status: Status,
    pub body: Body,
}

pub open spec fn is_text(b: Body, s: Seq<u8>) -> bool {
    match b {
        Body::Text(t) => t@ == s,
        _ => false,
    }
}

/// Decimal digits of `n`, without leading zeros.
pub open spec fn decimal(n: nat) -> Seq<u8>
    decreases n,
{
    if n < 10 {
        seq![(48 + n) as u8]
    } else {
        decimal(n / 10).push((48 + n % 10) as u8)
    }
}

/// The decimals of `ids`, joined by commas.
pub open spec fn joined(ids: Seq<usize>) -> Seq<u8>
    decreases ids.len(),
{
    if ids.len() == 0 {
        Seq::empty()
    } else if ids.len() == 1 {
        decimal(ids[0] as nat)
    } else {
        joined(ids.drop_last()).push(44u8) + decimal(ids.last() as nat)
    }
}

/// `ids` lists the live ids of `m` in ascending order.
pub open spec fn lists_ascending<T>(m: Map<nat, T>, ids: Seq<usize>) -> bool {
    &&& forall|i: int, j: int| 0 <= i < j < ids.len() ==> ids[i] < ids[j]
    &&& forall|k: nat| m.contains_key(k) <==> exists|i: int| 0 <= i < ids.len() && ids[i] == k
}

/// The status of `action` run against live records `m`.
pub open spec fn status_of(m: Map<nat, UserData>, action: Action) -> Status {
    match action {
        Action::Index(v) => if v == Method::Get { Status::Success } else { Status::MethodNotAllowed },
        Action::ListRecords(v) => if v == Method::Get { Status::Success } else { Status::MethodNotAllowed },
        Action::Item(v, id) => match v {
            Method::Post => if id is None { Status::Success } else { Status::BadRequest },
            Method::Other => Status::MethodNotAllowed,
            _ => match id {
                Some(k) => if m.contains_key(k as nat) { Status::Success } else { Status::NotFound },
                None => Status::NotFound,
            },
        },
        Action::Unrecognized => Status::NotFound,
    }
}

/// The status of a request with verb `method` and path `path`.
pub open spec fn request_status(m: Map<nat, UserData>, method: Method, path: Seq<u8>) -> Status {
    status_of(m, action_of(method, path))
}

/// `r` and `after` are the response to `action` and the live records after it,
/// where `before` were the live records when it came.
pub open spec fn dispatched(
    before: Map<nat, UserData>,
    after: Map<nat, UserData>,
    action: Action,
    r: Response,
) -> bool {
    &&& r.status == status_of(before, action)
    &&& r.status != Status::Success ==> r.body is Empty
    &&& match action {
        Action::Index(_) => after == before && (r.status == Status::Success ==> r.body is Landing),
        Action::ListRecords(_) => after == before && (r.status == Status::Success ==> exists|
            ids: Seq<usize>,
        | lists_ascending(before, ids) && is_text(r.body, joined(ids))),
        Action::Item(Method::Get, Some(k)) => after == before && (r.status == Status::Success
            ==> is_text(r.body, rendered_user())),
        Action::Item(Method::Put, Some(k)) => r.body is Empty && after == (if before.contains_key(
            k as nat,
        ) {
            before.insert(k as nat, UserData)
        } else {
            before
        }),
        Action::Item(Method::Delete, Some(k)) => r.body is Empty && after == before.remove(k as nat),
        Action::Item(Method::Post, None) => exists|id: usize|
            is_lowest_free(before, id as nat) && after == before.insert(id as nat, UserData)
                && is_text(r.body, decimal(id as nat)),
        _ => after == before,
    }
}

/// Every request, whatever its verb and path, is answered with exactly one of
/// the codes 200, 400, 404 and 405.
pub proof fn lemma_every_request_answered(m: Map<nat, UserData>, method: Method, path: Seq<u8>)
    ensures
        ({
            let c = status_code(request_status(m, method, path));
            c == 200 || c == 400 || c == 404 || c == 405
        }),
{
}

fn push_decimal(n: usize, out: &mut Vec<u8>)
    ensures
        final(out)@ == old(out)@ + decimal(n as nat),
    decreases n,
{
    if n >= 10 {
        push_decimal(n / 10, out);
    }
    out.push((48 + n % 10) as u8);
    proof {
        if n < 10 {
            assert(n % 10 == n);
        }
    }
    assert(final(out)@ =~= old(out)@ + decimal(n as nat));
}

/// The decimals of `ids`, joined by commas.
pub fn join_ids(ids: &Vec<usize>) -> (r: Vec<u8>)
    ensures
        r@ == joined(ids@),
{
    let mut out: Vec<u8> = Vec::new();
    let mut i: usize = 0;
    while i < ids.len()
        invariant
            i <= ids@.len(),
            out@ == joined(ids@.subrange(0, i as int)),
        decreases ids@.len() - i,
    {
        let ghost before = out@;
        if i > 0 {
            out.push(44u8);
        }
        push_decimal(ids[i], &mut out);
        assert(ids@.subrange(0, i + 1).drop_last() == ids@.subrange(0, i as int));
        i = i + 1;
    }
    assert(ids@.subrange(0, ids@.len() as int) == ids@);
    out
}

fn status_only(status: Status) -> (r: Response)
    ensures
        r.status == status,
        r.body is Empty,
{
    Response { status, body: Body::Empty }
}

/// Runs `action` against the records of `store`.
pub fn dispatch(store: &mut RecordStore<UserData>, action: Action) -> (r: Response)
    ensures
        dispatched(old(store)@, final(store)@, action, r),
{
    match action {
        Action::Index(method) => {
            if method == Method::Get {
                Response { status: Status::Success, body: Body::Landing }
            } else {
                status_only(Status::MethodNotAllowed)
            }
        },
        Action::ListRecords(method) => {
            if method == Method::Get {
                let ids = store.list_ids();
                let text = join_ids(&ids);
                assert(lists_ascending(store@, ids@));
                Response { status: Status::Success, body: Body::Text(text) }
            } else {
                status_only(Status::MethodNotAllowed)
            }
        },
        Action::Item(method, id) => match (method, id) {
            (Method::Get, Some(k)) => match store.get(k) {
                Some(user) => Response { status: Status::Success, body: Body::Text(user.render()) },
                None => status_only(Status::NotFound),
            },
            (Method::Put, Some(k)) => match store.update(k, UserData) {
                Ok(()) => status_only(Status::Success),
                Err(_) => status_only(Status::NotFound),
            },
            (Method::Post, None) => {
                let k = store.insert(UserData);
                let mut text: Vec<u8> = Vec::new();
                push_decimal(k, &mut text);
                assert(text@ =~= decimal(k as nat));
                Response { status: Status::Success, body: Body::Text(text) }
            },
            (Method::Post, Some(_)) => status_only(Status::BadRequest),
            (Method::Delete, Some(k)) => match store.remove(k) {
                Ok(()) => status_only(Status::Success),
                Err(_) => status_only(Status::NotFound),
            },
            (Method::Other, _) => status_only(Status::MethodNotAllowed),
            (_, None) => status_only(Status::NotFound),
        },
        Action::Unrecognized => status_only(Status::NotFound),
    }
}

/// Answers the request with verb `method` and path `path` from `store`.
pub fn handle(store: &mut RecordStore<UserData>, method: Method, path: &[u8]) -> (r: Response)
    ensures
        r.status == request_status(old(store)@, method, path@),
        dispatched(old(store)@, final(store)@, action_of(method, path@), r),
{
    let action = route(method, path);
    dispatch(store, action)
}

} // verus!
