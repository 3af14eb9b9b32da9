use vstd::prelude::*;

verus! {

/// The request verbs that the service tells apart.
#[derive(Debug, Clone, Copy, PartialEq, Eq, Structural)]
pub enum Method {
    Get,
    Put,
    Post,
    Delete,
    Other,
}

/// What a request asks for, from its verb and path alone.
#[derive(Debug, Clone, Copy, PartialEq, Eq, Structural)]
pub enum Action {
    /// The landing page.
    Index(Method),
    /// The collection of all records.
    ListRecords(Method),
    /// One record, with its id when the path holds one that fits a `usize`.
    Item(Method, Option<usize>),
    Unrecognized,
}

/// `0` to `9`.
pub open spec fn is_ascii_digit(b: u8) -> bool {
    48u8 <= b <= 57u8
}

pub open spec fn all_digits(s: Seq<u8>) -> bool {
    forall|i: int| 0 <= i < s.len() ==> is_ascii_digit(#[trigger] s[i])
}

/// The number that a run of decimal digits spells.
pub open spec fn digits_value(s: Seq<u8>) -> nat
    decreases s.len(),
{
    if s.len() == 0 {
        0
    } else {
        10 * digits_value(s.drop_last()) + (s.last() - 48u8) as nat
    }
}

/// `GET`, `PUT`, `POST` and `DELETE`, by exact name; any other is `Other`.
pub open spec fn method_named(name: Seq<u8>) -> Method {
    if name == seq![71u8, 69u8, 84u8] {
        Method::Get
    } else if name == seq![80u8, 85u8, 84u8] {
        Method::Put
    } else if name == seq![80u8, 79u8, 83u8, 84u8] {
        Method::Post
    } else if name == seq![68u8, 69u8, 76u8, 69u8, 84u8, 69u8] {
        Method::Delete
    } else {
        Method::Other
    }
}

/// `/index`
pub open spec fn index_word() -> Seq<u8> {
    seq![47u8, 105u8, 110u8, 100u8, 101u8, 120u8]
}

/// `/`, `/index`, `/index.htm` and `/index.html`.
pub open spec fn is_index_path(p: Seq<u8>) -> bool {
    ||| p == seq![47u8]
    ||| p == index_word()
    ||| p == index_word() + seq![46u8, 104u8, 116u8, 109u8]
    ||| p == index_word() + seq![46u8, 104u8, 116u8, 109u8, 108u8]
}

/// `/users`
pub open spec fn users_word() -> Seq<u8> {
    seq![47u8, 117u8, 115u8, 101u8, 114u8, 115u8]
}

/// `/users`, with or without a trailing slash.
pub open spec fn is_collection_path(p: Seq<u8>) -> bool {
    p == users_word() || p == users_word().push(47u8)
}

/// `/user/`
pub open spec fn item_prefix() -> Seq<u8> {
    seq![47u8, 117u8, 115u8, 101u8, 114u8, 47u8]
}

/// The digits of an item path's tail: the tail without one trailing slash.
pub open spec fn id_digits(tail: Seq<u8>) -> Seq<u8> {
    if tail.len() > 0 && tail.last() == 47u8 {
        tail.drop_last()
    } else {
        tail
    }
}

/// `/user/`, or `/user/` followed by decimal digits and an optional slash.
pub open spec fn is_item_path(p: Seq<u8>) -> bool {
    &&& p.len() >= 6
    &&& p.subrange(0, 6) == item_prefix()
    &&& {
        let tail = p.subrange(6, p.len() as int);
        tail.len() == 0 || (id_digits(tail).len() > 0 && all_digits(id_digits(tail)))
    }
}

/// The id of an item path; digits that spell a number beyond `usize` give none.
pub open spec fn item_id(p: Seq<u8>) -> Option<usize> {
    let tail = p.subrange(6, p.len() as int);
    if tail.len() == 0 || digits_value(id_digits(tail)) > usize::MAX {
        None
    } else {
        Some(digits_value(id_digits(tail)) as usize)
    }
}

pub open spec fn action_of(method: Method, p: Seq<u8>) -> Action {
    if is_index_path(p) {
        Action::Index(method)
    } else if is_collection_path(p) {
        Action::ListRecords(method)
    } else if is_item_path(p) {
        Action::Item(method, item_id(p))
    } else {
        Action::Unrecognized
    }
}

fn same_bytes(a: &[u8], b: &[u8]) -> (r: bool)
    ensures
        r == (a@ == b@),
{
    if a.len() != b.len() {
        return false;
    }
    let mut i: usize = 0;
    while i < a.len()
        invariant
            a@.len() == b@.len(),
            i <= a@.len(),
            a@.subrange(0, i as int) == b@.subrange(0, i as int),
        decreases a@.len() - i,
    {
        if a[i] != b[i] {
            assert(a@[i as int] != b@[i as int]);
            return false;
        }
        assert(a@.subrange(0, i + 1) == a@.subrange(0, i as int).push(a@[i as int]));
        assert(b@.subrange(0, i + 1) == b@.subrange(0, i as int).push(b@[i as int]));
        i = i + 1;
    }
    assert(a@ == a@.subrange(0, a@.len() as int));
    assert(b@ == b@.subrange(0, b@.len() as int));
    true
}

fn has_prefix(p: &[u8], prefix: &[u8]) -> (r: bool)
    ensures
        r == (p@.len() >= prefix@.len() && p@.subrange(0, prefix@.len() as int) == prefix@),
{
    if p.len() < prefix.len() {
        return false;
    }
    let mut i: usize = 0;
    while i < prefix.len()
        invariant
            p@.len() >= prefix@.len(),
            i <= prefix@.len(),
            p@.subrange(0, i as int) == prefix@.subrange(0, i as int),
        decreases prefix@.len() - i,
    {
        if p[i] != prefix[i] {
            assert(p@.subrange(0, prefix@.len() as int)[i as int] != prefix@[i as int]);
            return false;
        }
        assert(p@.subrange(0, i + 1) == p@.subrange(0, i as int).push(p@[i as int]));
        assert(prefix@.subrange(0, i + 1) == prefix@.subrange(0, i as int).push(prefix@[i as int]));
        i = i + 1;
    }
    assert(prefix@ == prefix@.subrange(0, prefix@.len() as int));
    true
}

proof fn lemma_digits_step(d: Seq<u8>, k: int)
    requires
        0 <= k < d.len(),
    ensures
        digits_value(d.subrange(0, k + 1)) == 10 * digits_value(d.subrange(0, k)) + (d[k] - 48u8) as nat,
{
    assert(d.subrange(0, k + 1).drop_last() == d.subrange(0, k));
}

proof fn lemma_no_overflow(acc: nat, dig: nat)
    requires
        dig <= 9,
        acc <= (usize::MAX - dig) / 10,
    ensures
        10 * acc + dig <= usize::MAX,
{
    assert(10 * acc <= usize::MAX - dig) by (nonlinear_arith)
        requires
            dig <= 9,
            acc <= (usize::MAX - dig) / 10,
    ;
}

proof fn lemma_overflow(acc: nat, dig: nat)
    requires
        dig <= 9,
        acc > (usize::MAX - dig) / 10,
    ensures
        10 * acc + dig > usize::MAX,
{
    assert(10 * acc + dig > usize::MAX) by (nonlinear_arith)
        requires
            dig <= 9,
            acc > (usize::MAX - dig) / 10,
    ;
}

/// Classifies a path that starts with `/user/` by what follows that prefix.
fn item_action(method: Method, p: &[u8]) -> (a: Action)
    requires
        p@.len() >= 6,
        p@.subrange(0, 6) == item_prefix(),
    ensures
        is_item_path(p@) ==> a == Action::Item(method, item_id(p@)),
        !is_item_path(p@) ==> a == Action::Unrecognized,
{
    let start: usize = 6;
    let len = p.len();
    let ghost tail = p@.subrange(6, len as int);
    if len == start {
        return Action::Item(method, None);
    }
    let end: usize = if p[len - 1] == 47u8 { len - 1 } else { len };
    let ghost d = p@.subrange(6, end as int);
    assert(id_digits(tail) == d);
    if end == start {
        return Action::Unrecognized;
    }
    let mut acc: usize = 0;
    let mut big: bool = false;
    let mut i: usize = start;
    while i < end
        invariant
            6 == start <= i <= end <= len == p@.len(),
            d == p@.subrange(6, end as int),
            tail == p@.subrange(6, len as int),
            id_digits(tail) == d,
            all_digits(d.subrange(0, i - 6)),
            !big ==> acc == digits_value(d.subrange(0, i - 6)),
            big ==> digits_value(d.subrange(0, i - 6)) > usize::MAX,
        decreases end - i,
    {
        let b = p[i];
        let ghost k = i - 6;
        assert(d[k] == b);
        if b < 48u8 || b > 57u8 {
            assert(!is_ascii_digit(d[k]));
            return Action::Unrecognized;
        }
        proof {
            lemma_digits_step(d, k);
            assert(d.subrange(0, k + 1).drop_last() == d.subrange(0, k));
            assert forall|j: int| 0 <= j < k + 1 implies is_ascii_digit(#[trigger] d.subrange(0, k + 1)[j]) by {
                if j < k {
                    assert(d.subrange(0, k + 1)[j] == d.subrange(0, k)[j]);
                }
            }
        }
        let dig: usize = (b - 48u8) as usize;
        if !big {
            if acc > (usize::MAX - dig) / 10 {
                proof {
                    lemma_overflow(acc as nat, dig as nat);
                }
                big = true;
            } else {
                proof {
                    lemma_no_overflow(acc as nat, dig as nat);
                }
                acc = acc * 10 + dig;
            }
        }
        i = i + 1;
    }
    assert(d.subrange(0, d.len() as int) == d);
    if big {
        Action::Item(method, None)
    } else {
        Action::Item(method, Some(acc))
    }
}

/// Classifies a request by its verb and path.
pub fn route(method: Method, path: &[u8]) -> (a: Action)
    ensures
        a == action_of(method, path@),
{
    // "/", "/index", "/index.htm", "/index.html", "/users", "/users/", "/user/"
    let root: [u8; 1] = [47u8];
    let index: [u8; 6] = [47u8, 105u8, 110u8, 100u8, 101u8, 120u8];
    let index_htm: [u8; 10] = [47u8, 105u8, 110u8, 100u8, 101u8, 120u8, 46u8, 104u8, 116u8, 109u8];
    let index_html: [u8; 11] = [
        47u8, 105u8, 110u8, 100u8, 101u8, 120u8, 46u8, 104u8, 116u8, 109u8, 108u8,
    ];
    let users: [u8; 6] = [47u8, 117u8, 115u8, 101u8, 114u8, 115u8];
    let users_slash: [u8; 7] = [47u8, 117u8, 115u8, 101u8, 114u8, 115u8, 47u8];
    let user: [u8; 6] = [47u8, 117u8, 115u8, 101u8, 114u8, 47u8];
    assert(root@ == seq![47u8]);
    assert(index@ == index_word());
    assert(index_htm@ == index_word() + seq![46u8, 104u8, 116u8, 109u8]);
    assert(index_html@ == index_word() + seq![46u8, 104u8, 116u8, 109u8, 108u8]);
    assert(users@ == users_word());
    assert(users_slash@ == users_word().push(47u8));
    assert(user@ == item_prefix());
    if same_bytes(path, root.as_slice()) || same_bytes(path, index.as_slice()) || same_bytes(
        path,
        index_htm.as_slice(),
    ) || same_bytes(path, index_html.as_slice()) {
        Action::Index(method)
    } else if same_bytes(path, users.as_slice()) || same_bytes(path, users_slash.as_slice()) {
        Action::ListRecords(method)
    } else if has_prefix(path, user.as_slice()) {
        item_action(method, path)
    } else {
        Action::Unrecognized
    }
}

impl Method {
    /// The verb that a request line names; names are case-sensitive.
    pub fn from_name(name: &[u8]) -> (m: Method)
        ensures
            m == method_named(name@),
    {
        // "GET", "PUT", "POST", "DELETE"
        let get: [u8; 3] = [71u8, 69u8, 84u8];
        let put: [u8; 3] = [80u8, 85u8, 84u8];
        let post: [u8; 4] = [80u8, 79u8, 83u8, 84u8];
        let delete: [u8; 6] = [68u8, 69u8, 76u8, 69u8, 84u8, 69u8];
        assert(get@ == seq![71u8, 69u8, 84u8]);
        assert(put@ == seq![80u8, 85u8, 84u8]);
        assert(post@ == seq![80u8, 79u8, 83u8, 84u8]);
        assert(delete@ == seq![68u8, 69u8, 76u8, 69u8, 84u8, 69u8]);
        if same_bytes(name, get.as_slice()) {
            Method::Get
        } else if same_bytes(name, put.as_slice()) {
            Method::Put
        } else if same_bytes(name, post.as_slice()) {
            Method::Post
        } else if same_bytes(name, delete.as_slice()) {
            Method::Delete
        } else {
            Method::Other
        }
    }
}

} // verus!
