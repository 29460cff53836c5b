//! The resolution engine: one episode's offer is exchanged for a playable address,
//! with one stored identity after the other until the exchange succeeds.

use vstd::prelude::*;
use crate::catalog::StreamDescriptor;
use crate::identity::{is_record, parse_line, Identity, IdentityView};
use crate::random::{is_arrangement, lemma_arrangement, shuffled_indices};
use crate::store::{in_bounds, next_record, no_record_between, Store};

verus! {

/// A successful resolution.
#[derive(Clone, Debug, PartialEq, Eq)]
pub struct Resolved {
    /// The playable address.
    pub url: String,
    /// The index of the stored line whose identity was accepted.
    pub line: usize,
    /// How often the exchange was asked, the successful time included.
    pub attempts: usize,
}

/// A failed resolution.
#[derive(Clone, Copy, Debug, PartialEq, Eq, Structural)]
pub enum ResolveError {
    /// The exchange refused every identity it was asked with, `attempts` of them.
    IdentityPoolExhausted { attempts: usize },
}

/// Whether the exchange can be asked with every offer and every identity.
pub open spec fn always_callable<F: Fn(&StreamDescriptor, &Identity) -> Option<String>>(
    exchange: F,
) -> bool {
    forall|d: StreamDescriptor, id: Identity| #[trigger] call_requires(exchange, (&d, &id))
}

/// Whether `out` is a possible answer of the exchange for the offer `d` and an
/// identity that reads `who`.
pub open spec fn may_answer<F: Fn(&StreamDescriptor, &Identity) -> Option<String>>(
    exchange: F,
    d: StreamDescriptor,
    who: IdentityView,
    out: Option<String>,
) -> bool {
    exists|id: Identity| id@ == who && #[trigger] call_ensures(exchange, (&d, &id), out)
}

/// How many of the lines that `order` names are records, each counted as often as
/// it is named.
pub open spec fn record_total(lines: Seq<Seq<char>>, order: Seq<usize>) -> nat
    decreases order.len(),
{
    if order.len() == 0 {
        0
    } else {
        record_total(lines, order.drop_last()) + if is_record(lines[order.last() as int]) {
            1nat
        } else {
            0nat
        }
    }
}

/// How many of the lines are records.
pub open spec fn record_count(lines: Seq<Seq<char>>) -> nat {
    record_total(lines, crate::random::indices(lines.len()))
}

/// Whether the exchange refused the identity of every record among the first `p`
/// lines that `order` names.
pub open spec fn all_refused<F: Fn(&StreamDescriptor, &Identity) -> Option<String>>(
    exchange: F,
    d: StreamDescriptor,
    lines: Seq<Seq<char>>,
    order: Seq<usize>,
    p: int,
) -> bool {
    forall|q: int|
        0 <= q < p && is_record(lines[#[trigger] order[q] as int]) ==> may_answer(
            exchange,
            d,
            parse_line(lines[order[q] as int])->Some_0,
            None,
        )
}

/// Whether `res` is what comes of asking the exchange with the records in the
/// given order when the one at position `p` is the first to be accepted.
pub open spec fn resolved_at<F: Fn(&StreamDescriptor, &Identity) -> Option<String>>(
    exchange: F,
    d: StreamDescriptor,
    lines: Seq<Seq<char>>,
    order: Seq<usize>,
    max_attempts: usize,
    p: int,
    res: Resolved,
) -> bool {
    &&& 0 <= p < order.len()
    &&& order[p] == res.line
    &&& is_record(lines[res.line as int])
    &&& may_answer(exchange, d, parse_line(lines[res.line as int])->Some_0, Some(res.url))
    &&& all_refused(exchange, d, lines, order, p)
    &&& res.attempts == record_total(lines, order.take(p)) + 1
    &&& res.attempts <= max_attempts
}

/// Whether asking the exchange with the records in the given order ends without
/// an address after `attempts` refusals, the first `p` lines having been looked
/// at: either no line is left, or no attempt is.
pub open spec fn exhausted_at<F: Fn(&StreamDescriptor, &Identity) -> Option<String>>(
    exchange: F,
    d: StreamDescriptor,
    lines: Seq<Seq<char>>,
    order: Seq<usize>,
    max_attempts: usize,
    p: int,
    attempts: usize,
) -> bool {
    &&& 0 <= p <= order.len()
    &&& all_refused(exchange, d, lines, order, p)
    &&& attempts == record_total(lines, order.take(p))
    &&& attempts <= max_attempts
    &&& p == order.len() || attempts == max_attempts
}

/// Whether `r` is what comes of asking the exchange with the records in the given
/// order when the first `p` lines are looked at, or, where an identity is
/// accepted, the lines up to the one at position `p`.
pub open spec fn outcome_at<F: Fn(&StreamDescriptor, &Identity) -> Option<String>>(
    exchange: F,
    d: StreamDescriptor,
    lines: Seq<Seq<char>>,
    order: Seq<usize>,
    max_attempts: usize,
    p: int,
    r: Result<Resolved, ResolveError>,
) -> bool {
    match r {
        Ok(res) => resolved_at(exchange, d, lines, order, max_attempts, p, res),
        Err(ResolveError::IdentityPoolExhausted { attempts }) => exhausted_at(
            exchange,
            d,
            lines,
            order,
            max_attempts,
            p,
            attempts,
        ),
    }
}

/// Lines that are no records do not count.
pub proof fn lemma_skip_no_record(lines: Seq<Seq<char>>, order: Seq<usize>, from: int, to: int)
    requires
        0 <= from <= to <= order.len(),
        no_record_between(lines, order, from, to),
    ensures
        record_total(lines, order.take(to)) == record_total(lines, order.take(from)),
    decreases to - from,
{
    if from < to {
        lemma_skip_no_record(lines, order, from, to - 1);
        assert(order.take(to).drop_last() =~= order.take(to - 1));
        assert(order.take(to).last() == order[to - 1]);
        assert(!is_record(lines[order[to - 1] as int]));
    }
}

/// One more line counts for one if it is a record.
pub proof fn lemma_count_step(lines: Seq<Seq<char>>, order: Seq<usize>, p: int)
    requires
        0 <= p < order.len(),
    ensures
        record_total(lines, order.take(p + 1)) == record_total(lines, order.take(p)) + if is_record(
            lines[order[p] as int],
        ) {
            1nat
        } else {
            0nat
        },
{
    assert(order.take(p + 1).drop_last() =~= order.take(p));
    assert(order.take(p + 1).last() == order[p]);
}

/// A prefix of the order names no more records than the whole order, and if it
/// names as many, no record lies behind it.
pub proof fn lemma_total_prefix(lines: Seq<Seq<char>>, order: Seq<usize>, p: int)
    requires
        0 <= p <= order.len(),
    ensures
        record_total(lines, order.take(p)) <= record_total(lines, order),
        record_total(lines, order.take(p)) == record_total(lines, order) ==> no_record_between(
            lines,
            order,
            p,
            order.len() as int,
        ),
    decreases order.len() - p,
{
    if p < order.len() {
        lemma_count_step(lines, order, p);
        lemma_total_prefix(lines, order, p + 1);
    } else {
        assert(order.take(p) =~= order);
    }
}

/// An order that names a record at all names one at some position.
pub proof fn lemma_total_positive(lines: Seq<Seq<char>>, order: Seq<usize>) -> (q: int)
    requires
        record_total(lines, order) > 0,
    ensures
        0 <= q < order.len(),
        is_record(lines[order[q] as int]),
    decreases order.len(),
{
    if is_record(lines[order.last() as int]) {
        order.len() - 1
    } else {
        lemma_total_positive(lines, order.drop_last())
    }
}

/// Taking one entry out of the order takes one off the count if that entry names
/// a record, and nothing otherwise.
pub proof fn lemma_total_remove(lines: Seq<Seq<char>>, order: Seq<usize>, k: int)
    requires
        0 <= k < order.len(),
    ensures
        record_total(lines, order) == record_total(lines, order.remove(k)) + if is_record(
            lines[order[k] as int],
        ) {
            1nat
        } else {
            0nat
        },
    decreases order.len(),
{
    let rest = order.drop_last();
    if k == order.len() - 1 {
        assert(order.remove(k) =~= rest);
    } else {
        lemma_total_remove(lines, rest, k);
        assert(order.remove(k).drop_last() =~= rest.remove(k));
        assert(order.remove(k).last() == order.last());
    }
}

/// The count does not depend on the order: two orders with the same entries name
/// equally many records.
pub proof fn lemma_total_rearranged(lines: Seq<Seq<char>>, a: Seq<usize>, b: Seq<usize>)
    requires
        a.to_multiset() == b.to_multiset(),
    ensures
        record_total(lines, a) == record_total(lines, b),
    decreases a.len(),
{
    broadcast use {vstd::seq_lib::group_to_multiset_ensures, vstd::multiset::group_multiset_axioms};

    assert(a.len() == a.to_multiset().len());
    assert(b.len() == b.to_multiset().len());
    if a.len() > 0 {
        let x = a.last();
        let a1 = a.drop_last();
        assert(a =~= a1.push(x));
        assert(a.to_multiset() =~= a1.to_multiset().insert(x));
        assert(a.to_multiset().count(x) > 0);
        assert(b.contains(x));
        let k = choose|k: int| 0 <= k < b.len() && b[k] == x;
        let b1 = b.remove(k);
        assert(b1.to_multiset() =~= b.to_multiset().remove(x));
        assert(a1.to_multiset() =~= b1.to_multiset());
        lemma_total_rearranged(lines, a1, b1);
        lemma_total_remove(lines, b, k);
    }
}

/// What comes of a resolution over the whole pool, whatever the order in which
/// the identities were tried.
///
/// An address comes from a record's identity, after at most `max_attempts`
/// attempts and at most as many as there are records. Without an address, the
/// exchange was asked as often as allowed or as there are records, whichever is
/// less, and refused each time; if that was once for each record, it has
/// refused the identity of every record.
pub open spec fn resolution<F: Fn(&StreamDescriptor, &Identity) -> Option<String>>(
    exchange: F,
    d: StreamDescriptor,
    lines: Seq<Seq<char>>,
    max_attempts: usize,
    r: Result<Resolved, ResolveError>,
) -> bool {
    match r {
        Ok(res) => {
            &&& res.line < lines.len()
            &&& is_record(lines[res.line as int])
            &&& may_answer(exchange, d, parse_line(lines[res.line as int])->Some_0, Some(res.url))
            &&& 1 <= res.attempts <= max_attempts
            &&& res.attempts <= record_count(lines)
        },
        Err(ResolveError::IdentityPoolExhausted { attempts }) => {
            &&& attempts == if max_attempts <= record_count(lines) {
                max_attempts as nat
            } else {
                record_count(lines)
            }
            &&& attempts > 0 ==> some_record_refused(exchange, d, lines)
            &&& attempts == record_count(lines) ==> every_record_refused(exchange, d, lines)
        },
    }
}

/// Whether the exchange refused the identity of some record.
pub open spec fn some_record_refused<F: Fn(&StreamDescriptor, &Identity) -> Option<String>>(
    exchange: F,
    d: StreamDescriptor,
    lines: Seq<Seq<char>>,
) -> bool {
    exists|i: int|
        0 <= i < lines.len() && is_record(#[trigger] lines[i]) && may_answer(
            exchange,
            d,
            parse_line(lines[i])->Some_0,
            None,
        )
}

/// Whether the exchange refused the identity of every record.
pub open spec fn every_record_refused<F: Fn(&StreamDescriptor, &Identity) -> Option<String>>(
    exchange: F,
    d: StreamDescriptor,
    lines: Seq<Seq<char>>,
) -> bool {
    forall|i: int|
        0 <= i < lines.len() && is_record(#[trigger] lines[i]) ==> may_answer(
            exchange,
            d,
            parse_line(lines[i])->Some_0,
            None,
        )
}

/// What holds of a resolution in one arrangement of the lines holds of the pool.
pub proof fn lemma_outcome_is_resolution<F: Fn(&StreamDescriptor, &Identity) -> Option<String>>(
    exchange: F,
    d: StreamDescriptor,
    lines: Seq<Seq<char>>,
    order: Seq<usize>,
    max_attempts: usize,
    p: int,
    r: Result<Resolved, ResolveError>,
)
    requires
        lines.len() <= usize::MAX,
        is_arrangement(order, lines.len()),
        outcome_at(exchange, d, lines, order, max_attempts, p, r),
    ensures
        resolution(exchange, d, lines, max_attempts, r),
{
    lemma_arrangement(order, lines.len());
    lemma_total_rearranged(lines, order, crate::random::indices(lines.len()));
    lemma_total_prefix(lines, order, p);
    match r {
        Ok(res) => {
            lemma_count_step(lines, order, p);
            lemma_total_prefix(lines, order, p + 1);
        },
        Err(ResolveError::IdentityPoolExhausted { attempts }) => {
            if p == order.len() {
                assert(order.take(p) =~= order);
            }
            if attempts > 0 {
                let q = lemma_total_positive(lines, order.take(p));
                assert(order.take(p)[q] == order[q]);
                assert(is_record(lines[order[q] as int]));
            }
            if attempts == record_count(lines) {
                assert forall|i: int| 0 <= i < lines.len() && is_record(
                    #[trigger] lines[i],
                ) implies may_answer(exchange, d, parse_line(lines[i])->Some_0, None) by {
                    assert(order.contains(i as usize));
                    let q = choose|q: int| 0 <= q < order.len() && order[q] == i as usize;
                    if q >= p {
                        assert(!is_record(lines[order[q] as int]));
                    }
                }
            }
        },
    }
}

/// Asks the exchange with the identities of the records, in the given order, until
/// it answers with an address, no line is left, or `max_attempts` identities were
/// refused. Lines that are no records are passed over and cost no attempt.
pub fn resolve_in_order<F: Fn(&StreamDescriptor, &Identity) -> Option<String>>(
    store: &Store,
    order: &Vec<usize>,
    descriptor: &StreamDescriptor,
    max_attempts: usize,
    exchange: &F,
) -> (r: Result<Resolved, ResolveError>)
    requires
        in_bounds(order@, store@.len()),
        always_callable(*exchange),
    ensures
        exists|p: int| #[trigger]
            outcome_at(*exchange, *descriptor, store@, order@, max_attempts, p, r),
{
    let mut p: usize = 0;
    let mut attempts: usize = 0;
    assert(order@.take(0) =~= Seq::<usize>::empty());
    loop
        invariant
            p <= order.len(),
            in_bounds(order@, store@.len()),
            always_callable(*exchange),
            all_refused(*exchange, *descriptor, store@, order@, p as int),
            attempts == record_total(store@, order@.take(p as int)),
            attempts <= p,
            attempts <= max_attempts,
        decreases order.len() - p,
    {
        if attempts >= max_attempts {
            let r = Err(ResolveError::IdentityPoolExhausted { attempts });
            assert(outcome_at(*exchange, *descriptor, store@, order@, max_attempts, p as int, r));
            return r;
        }
        match next_record(&store.lines, order, p) {
            None => {
                let r = Err(ResolveError::IdentityPoolExhausted { attempts });
                proof {
                    lemma_skip_no_record(store@, order@, p as int, order.len() as int);
                    assert(outcome_at(
                        *exchange,
                        *descriptor,
                        store@,
                        order@,
                        max_attempts,
                        order.len() as int,
                        r,
                    ));
                }
                return r;
            },
            Some((q, id)) => {
                let line = order[q];
                proof {
                    lemma_skip_no_record(store@, order@, p as int, q as int);
                    lemma_count_step(store@, order@, q as int);
                    crate::identity::lemma_parse_line_some(store@[line as int]);
                }
                let out = exchange(descriptor, &id);
                assert(may_answer(*exchange, *descriptor, id@, out));
                match out {
                    Some(url) => {
                        let r = Ok(Resolved { url, line, attempts: attempts + 1 });
                        assert(outcome_at(
                            *exchange,
                            *descriptor,
                            store@,
                            order@,
                            max_attempts,
                            q as int,
                            r,
                        ));
                        return r;
                    },
                    None => {
                        attempts = attempts + 1;
                        p = q + 1;
                    },
                }
            },
        }
    }
}

/// Resolves one offer: the stored identities are tried in a random order, each
/// record's identity at most once, until the exchange answers with an address or
/// `max_attempts` identities were refused. The pool is left as it is.
pub fn resolve<F: Fn(&StreamDescriptor, &Identity) -> Option<String>>(
    store: &Store,
    descriptor: &StreamDescriptor,
    max_attempts: usize,
    exchange: &F,
) -> (r: Result<Resolved, ResolveError>)
    requires
        always_callable(*exchange),
    ensures
        resolution(*exchange, *descriptor, store@, max_attempts, r),
{
    let order = shuffled_indices(store.len());
    proof {
        lemma_arrangement(order@, store@.len());
    }
    let r = resolve_in_order(store, &order, descriptor, max_attempts, exchange);
    proof {
        let p = choose|p: int| #[trigger]
            outcome_at(*exchange, *descriptor, store@, order@, max_attempts, p, r);
        lemma_outcome_is_resolution(*exchange, *descriptor, store@, order@, max_attempts, p, r);
    }
    r
}

/// An exchange that never answers with an address exhausts the pool: the
/// resolution ends, without an address, after as many attempts as are allowed or
/// as there are records, whichever is less.
pub proof fn lemma_never_answering_exhausts<F: Fn(&StreamDescriptor, &Identity) -> Option<String>>(
    exchange: F,
    d: StreamDescriptor,
    lines: Seq<Seq<char>>,
    max_attempts: usize,
    r: Result<Resolved, ResolveError>,
)
    requires
        resolution(exchange, d, lines, max_attempts, r),
        forall|dd: StreamDescriptor, id: Identity, out: Option<String>| #[trigger]
            call_ensures(exchange, (&dd, &id), out) ==> out is None,
    ensures
        r matches Err(ResolveError::IdentityPoolExhausted { attempts }) && attempts == if max_attempts
            <= record_count(lines) {
            max_attempts as nat
        } else {
            record_count(lines)
        },
{
}

/// Where every identity may be tried and the exchange never refuses the identity
/// of some record, the resolution yields an address.
pub proof fn lemma_accepted_identity_resolves<F: Fn(&StreamDescriptor, &Identity) -> Option<String>>(
    exchange: F,
    d: StreamDescriptor,
    lines: Seq<Seq<char>>,
    max_attempts: usize,
    r: Result<Resolved, ResolveError>,
    i: int,
)
    requires
        resolution(exchange, d, lines, max_attempts, r),
        max_attempts >= record_count(lines),
        0 <= i < lines.len(),
        is_record(lines[i]),
        !may_answer(exchange, d, parse_line(lines[i])->Some_0, None),
    ensures
        r is Ok,
{
}

} // verus!
