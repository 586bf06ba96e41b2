//! The exchange router that baskets trade through, and how a route is chosen.
use crate::error::Error;
use crate::ledger::{AccountId, AssetId, Balance};
use vstd::prelude::*;

verus! {

/// A call made to a router, with what it answered.
pub enum RouterCall {
    /// A search for the best route from `source` to `dest` for an exact
    /// input of `amount_in` and a minimum output of `min_out`, among `hints`.
    Search {
        source: AssetId,
        dest: AssetId,
        amount_in: Balance,
        min_out: Balance,
        hints: Vec<Vec<AssetId>>,
        answer: Option<Vec<AssetId>>,
    },
    /// A swap of exactly `amount_in` along `route` for `account`, for at
    /// least `min_out`; `out` is the amount received, `None` where it failed.
    Swap {
        account: AccountId,
        route: Vec<AssetId>,
        amount_in: Balance,
        min_out: Balance,
        out: Option<Balance>,
    },
}

/// The record of calls a router keeps for verification, oldest first.
pub type CallLog = Seq<RouterCall>;

/// An exchange that finds routes between assets and executes swaps along
/// them. The engine assumes nothing of the routes and amounts it answers:
/// every contract of the engine holds whatever comes back. An implementation
/// keeps, for verification only, the record of the calls made to it and of
/// its answers; one that is not verified never has it read, and may leave it
/// unreachable.
pub trait Router {
    /// The calls made to this router, oldest first, with their answers.
    spec fn calls(&self) -> CallLog;

    /// The best route from `source` to `dest` for an exact input of
    /// `amount_in` and a minimum output of `min_out`, searched among `hints`;
    /// `None` where no route is found.
    fn best_route(
        &mut self,
        source: AssetId,
        dest: AssetId,
        amount_in: Balance,
        min_out: Balance,
        hints: &Vec<Vec<AssetId>>,
    ) -> (r: Option<Vec<AssetId>>)
        ensures
            final(self).calls() == old(self).calls().push(
                RouterCall::Search {
                    source: source,
                    dest: dest,
                    amount_in: amount_in,
                    min_out: min_out,
                    hints: *hints,
                    answer: r,
                },
            ),
    ;

    /// Swaps exactly `amount_in` of the route's first asset into its last on
    /// behalf of `account`, and returns the amount received; `None` where the
    /// swap fails.
    fn swap_exact_input(
        &mut self,
        account: AccountId,
        route: &Vec<AssetId>,
        amount_in: Balance,
        min_out: Balance,
    ) -> (r: Option<Balance>)
        ensures
            final(self).calls() == old(self).calls().push(
                RouterCall::Swap {
                    account: account,
                    route: *route,
                    amount_in: amount_in,
                    min_out: min_out,
                    out: r,
                },
            ),
    ;
}

/// Route hints as values.
pub open spec fn hints_view(h: Vec<Vec<AssetId>>) -> Seq<Seq<AssetId>> {
    h@.map_values(|v: Vec<AssetId>| v@)
}

/// One conversion of an amount of one asset into another: source, dest, amount.
pub type Conversion = (AssetId, AssetId, Balance);

/// The direct pair `[source, dest]` of a conversion.
pub open spec fn direct(c: Conversion) -> Seq<AssetId> {
    seq![c.0, c.1]
}

/// What a swap that answered `out` gives.
pub open spec fn swap_result(out: Option<Balance>) -> Result<Balance, Error> {
    match out {
        Some(v) => Ok(v),
        None => Err(Error::SwapFailed),
    }
}

/// `call` swaps exactly the amount of `c` along `route` for `account`, with
/// no minimum output.
pub open spec fn swapped(call: RouterCall, account: AccountId, c: Conversion, route: Seq<AssetId>) -> bool {
    match call {
        RouterCall::Swap { account: a, route: r, amount_in, min_out, out: _ } => {
            &&& a == account
            &&& r@ == route
            &&& amount_in == c.2
            &&& min_out == 0
        },
        _ => false,
    }
}

/// What a swap call answered.
pub open spec fn swap_out(call: RouterCall) -> Option<Balance> {
    match call {
        RouterCall::Swap { out, .. } => out,
        _ => None,
    }
}

/// `call` searches a route for `c` among `hints`, with no minimum output.
pub open spec fn searched(call: RouterCall, c: Conversion, hints: Seq<Seq<AssetId>>) -> bool {
    match call {
        RouterCall::Search { source, dest, amount_in, min_out, hints: h, answer: _ } => {
            &&& source == c.0
            &&& dest == c.1
            &&& amount_in == c.2
            &&& min_out == 0
            &&& hints_view(h) == hints
        },
        _ => false,
    }
}

/// The route a search settles on for `c`: its answer, or the direct pair
/// where it found none.
pub open spec fn found_route(call: RouterCall, c: Conversion) -> Seq<AssetId> {
    match call {
        RouterCall::Search { answer: Some(v), .. } => v@,
        _ => direct(c),
    }
}

/// `calls` are the calls made to convert `c` for `account`, and `res` what
/// came of it. Nothing is asked where source and dest are one asset. Without
/// hints, one swap along the direct pair. With hints, a search, then, unless
/// the route it settles on is empty, a swap along that route.
pub open spec fn converts(
    calls: CallLog,
    account: AccountId,
    c: Conversion,
    hints: Seq<Seq<AssetId>>,
    res: Result<Balance, Error>,
) -> bool {
    if c.0 == c.1 {
        calls.len() == 0 && res == Ok::<Balance, Error>(c.2)
    } else if hints.len() == 0 {
        &&& calls.len() == 1
        &&& swapped(calls[0], account, c, direct(c))
        &&& res == swap_result(swap_out(calls[0]))
    } else {
        &&& calls.len() >= 1
        &&& searched(calls[0], c, hints)
        &&& if found_route(calls[0], c).len() == 0 {
            calls.len() == 1 && res == Err::<Balance, Error>(Error::NoRouteAvailable)
        } else {
            &&& calls.len() == 2
            &&& swapped(calls[1], account, c, found_route(calls[0], c))
            &&& res == swap_result(swap_out(calls[1]))
        }
    }
}

/// How many calls a conversion that succeeds makes.
pub open spec fn calls_needed(c: Conversion, hints: Seq<Seq<AssetId>>) -> int {
    if c.0 == c.1 {
        0
    } else if hints.len() == 0 {
        1
    } else {
        2
    }
}

/// `log` holds, in order, the calls that converted each of `cs`, and each
/// conversion yielded the matching amount of `outs`.
pub open spec fn converted(
    log: CallLog,
    account: AccountId,
    cs: Seq<Conversion>,
    hints: Seq<Seq<AssetId>>,
    outs: Seq<Balance>,
) -> bool
    decreases cs.len(),
{
    if cs.len() == 0 {
        log.len() == 0 && outs.len() == 0
    } else {
        let k = calls_needed(cs.last(), hints);
        &&& outs.len() == cs.len()
        &&& log.len() >= k
        &&& converted(log.take(log.len() - k), account, cs.drop_last(), hints, outs.drop_last())
        &&& converts(log.skip(log.len() - k), account, cs.last(), hints, Ok(outs.last()))
    }
}

/// `log` holds the calls that converted the first few of `cs`, then those of
/// the next conversion, which failed with `e`.
pub open spec fn failed(
    log: CallLog,
    account: AccountId,
    cs: Seq<Conversion>,
    hints: Seq<Seq<AssetId>>,
    e: Error,
) -> bool {
    exists|k: int, m: int, outs: Seq<Balance>|
        {
            &&& 0 <= k < cs.len()
            &&& 0 <= m <= log.len()
            &&& converted(log.take(m), account, cs.take(k), hints, outs)
            &&& converts(log.skip(m), account, cs[k], hints, Err(e))
        }
}

/// `after` is `before` with more calls after it.
pub open spec fn grew(before: CallLog, after: CallLog) -> bool {
    before.len() <= after.len() && after.take(before.len() as int) == before
}

/// The calls in `after` past `before`.
pub open spec fn added(before: CallLog, after: CallLog) -> CallLog {
    after.skip(before.len() as int)
}

/// A conversion that succeeds makes as many calls as it needs.
pub proof fn lemma_converts_len(
    calls: CallLog,
    account: AccountId,
    c: Conversion,
    hints: Seq<Seq<AssetId>>,
    v: Balance,
)
    requires
        converts(calls, account, c, hints, Ok(v)),
    ensures
        calls.len() == calls_needed(c, hints),
{
}

/// One more conversion that succeeded extends the record.
pub proof fn lemma_converted_extend(
    log: CallLog,
    chunk: CallLog,
    account: AccountId,
    cs: Seq<Conversion>,
    i: int,
    hints: Seq<Seq<AssetId>>,
    outs: Seq<Balance>,
    v: Balance,
)
    requires
        0 <= i < cs.len(),
        converted(log, account, cs.take(i), hints, outs),
        converts(chunk, account, cs[i], hints, Ok(v)),
    ensures
        converted(log + chunk, account, cs.take(i + 1), hints, outs.push(v)),
{
    lemma_converts_len(chunk, account, cs[i], hints, v);
    let l = log + chunk;
    let k = calls_needed(cs[i], hints);
    assert(l.take(l.len() - k) =~= log);
    assert(l.skip(l.len() - k) =~= chunk);
    assert(cs.take(i + 1).drop_last() =~= cs.take(i));
    assert(outs.push(v).drop_last() =~= outs);
}

/// One more conversion, whatever came of it: the record extends where it
/// succeeded, and records a failure where it failed.
pub proof fn lemma_conversion_step(
    start: CallLog,
    before: CallLog,
    after: CallLog,
    account: AccountId,
    cs: Seq<Conversion>,
    i: int,
    hints: Seq<Seq<AssetId>>,
    outs: Seq<Balance>,
    res: Result<Balance, Error>,
)
    requires
        0 <= i < cs.len(),
        grew(start, before),
        grew(before, after),
        converted(added(start, before), account, cs.take(i), hints, outs),
        converts(added(before, after), account, cs[i], hints, res),
    ensures
        grew(start, after),
        res matches Ok(v) ==> converted(added(start, after), account, cs.take(i + 1), hints, outs.push(v)),
        res matches Err(e) ==> failed(added(start, after), account, cs, hints, e),
{
    let a = added(start, before);
    let chunk = added(before, after);
    assert(added(start, after) =~= a + chunk);
    assert(after.take(start.len() as int) =~= start);
    match res {
        Ok(v) => {
            lemma_converted_extend(a, chunk, account, cs, i, hints, outs, v);
        },
        Err(e) => {
            let l = added(start, after);
            assert(l.take(a.len() as int) =~= a);
            assert(l.skip(a.len() as int) =~= chunk);
            assert(converted(l.take(a.len() as int), account, cs.take(i), hints, outs));
        },
    }
}

/// The calls for two runs of conversions, one after the other, are the
/// calls for the two runs joined.
pub proof fn lemma_converted_join(
    log1: CallLog,
    log2: CallLog,
    account: AccountId,
    cs1: Seq<Conversion>,
    cs2: Seq<Conversion>,
    hints: Seq<Seq<AssetId>>,
    outs1: Seq<Balance>,
    outs2: Seq<Balance>,
)
    requires
        converted(log1, account, cs1, hints, outs1),
        converted(log2, account, cs2, hints, outs2),
    ensures
        converted(log1 + log2, account, cs1 + cs2, hints, outs1 + outs2),
    decreases cs2.len(),
{
    if cs2.len() == 0 {
        assert(log1 + log2 =~= log1);
        assert(cs1 + cs2 =~= cs1);
        assert(outs1 + outs2 =~= outs1);
    } else {
        let k = calls_needed(cs2.last(), hints);
        let rest = log2.take(log2.len() - k);
        lemma_converted_join(log1, rest, account, cs1, cs2.drop_last(), hints, outs1, outs2.drop_last());
        let l = log1 + log2;
        assert(l.take(l.len() - k) =~= log1 + rest);
        assert(l.skip(l.len() - k) =~= log2.skip(log2.len() - k));
        assert((cs1 + cs2).drop_last() =~= cs1 + cs2.drop_last());
        assert((outs1 + outs2).drop_last() =~= outs1 + outs2.drop_last());
    }
}

/// The route for a swap: the one the search found, or the direct pair
/// `[source, dest]` where it found none.
pub fn choose_route(found: Option<Vec<AssetId>>, source: AssetId, dest: AssetId) -> (r: Vec<
    AssetId,
>)
    ensures
        match found {
            Some(v) => r@ == v@,
            None => r@ == seq![source, dest],
        },
{
    match found {
        Some(v) => v,
        None => vec![source, dest],
    }
}

/// The route for a swap of `amount_in` from `source` to `dest`: the direct
/// pair where there are no hints, else what the router's search among them
/// settles on.
pub fn resolve_route<R: Router>(
    router: &mut R,
    source: AssetId,
    dest: AssetId,
    amount_in: Balance,
    hints: &Vec<Vec<AssetId>>,
) -> (r: Vec<AssetId>)
    ensures
        grew(old(router).calls(), final(router).calls()),
        hints@.len() == 0 ==> final(router).calls() == old(router).calls() && r@ == direct(
            (source, dest, amount_in),
        ),
        hints@.len() > 0 ==> {
            &&& added(old(router).calls(), final(router).calls()).len() == 1
            &&& searched(
                added(old(router).calls(), final(router).calls())[0],
                (source, dest, amount_in),
                hints_view(*hints),
            )
            &&& r@ == found_route(
                added(old(router).calls(), final(router).calls())[0],
                (source, dest, amount_in),
            )
        },
{
    let ghost start = router.calls();
    if hints.len() == 0 {
        assert(router.calls().take(start.len() as int) =~= start);
        vec![source, dest]
    } else {
        let found = router.best_route(source, dest, amount_in, 0, hints);
        assert(router.calls().take(start.len() as int) =~= start);
        assert(added(start, router.calls())[0] == router.calls().last());
        choose_route(found, source, dest)
    }
}

/// A route that a swap can be made along: any route but the empty one.
pub fn checked_route(route: Vec<AssetId>) -> (r: Result<Vec<AssetId>, Error>)
    ensures
        route@.len() == 0 ==> r == Err::<Vec<AssetId>, Error>(Error::NoRouteAvailable),
        route@.len() > 0 ==> r == Ok::<Vec<AssetId>, Error>(route),
{
    if route.len() == 0 {
        Err(Error::NoRouteAvailable)
    } else {
        Ok(route)
    }
}

/// Converts `amount_in` of `source` into `dest` for `account`: no trade
/// where the two are the same asset, else a swap with no minimum output
/// along the resolved route. Returns the amount obtained.
pub fn trade<R: Router>(
    router: &mut R,
    account: AccountId,
    source: AssetId,
    dest: AssetId,
    amount_in: Balance,
    hints: &Vec<Vec<AssetId>>,
) -> (r: Result<Balance, Error>)
    ensures
        grew(old(router).calls(), final(router).calls()),
        converts(
            added(old(router).calls(), final(router).calls()),
            account,
            (source, dest, amount_in),
            hints_view(*hints),
            r,
        ),
{
    let ghost start = router.calls();
    let ghost c = (source, dest, amount_in);
    if source == dest {
        assert(router.calls().take(start.len() as int) =~= start);
        assert(added(start, router.calls()) =~= Seq::<RouterCall>::empty());
        return Ok(amount_in);
    }
    let route = resolve_route(router, source, dest, amount_in, hints);
    let ghost mid = router.calls();
    let route = match checked_route(route) {
        Ok(v) => v,
        Err(e) => {
            assert(added(start, mid) =~= mid.skip(start.len() as int));
            return Err(e);
        },
    };
    let out = router.swap_exact_input(account, &route, amount_in, 0);
    proof {
        let fin = router.calls();
        assert(fin.take(start.len() as int) =~= start);
        assert(added(start, fin) =~= added(start, mid).push(fin.last()));
    }
    match out {
        Some(v) => Ok(v),
        None => Err(Error::SwapFailed),
    }
}

} // verus!
