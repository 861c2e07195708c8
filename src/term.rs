use vstd::prelude::*;
use crate::instant::{Instant, NANOS_PER_DAY};
use crate::lot::{Lot, quantity_sum, times_in_range};
use crate::market::{Product, catalog_entry, find_product};

verus! {

/// Holding period after which a lot counts as long-term, in days.
pub const SHORT_DAYS: i128 = 365;

/// Window before the reference instant in which a lot is subject to the
/// wash-sale rule, in days.
pub const WASH_DAYS: i128 = 32;

/// Tax bucket of a lot relative to a reference instant.
#[derive(Debug, Clone, Copy, PartialEq, Eq, Structural)]
pub enum Term {
    Long,
    Short,
    Wash,
}

/// Length of the short-term holding period, in nanoseconds.
pub open spec fn short_span() -> int {
    SHORT_DAYS * NANOS_PER_DAY
}

/// Length of the wash-sale window, in nanoseconds.
pub open spec fn wash_span() -> int {
    WASH_DAYS * NANOS_PER_DAY
}

/// Bucket of a lot acquired at `time` as seen at `now`: long-term when
/// acquired strictly before `now - 365 days`, else short-term when strictly
/// before `now - 32 days`, else wash.
pub open spec fn term_of(time: int, now: int) -> Term {
    if time < now - short_span() {
        Term::Long
    } else if time < now - wash_span() {
        Term::Short
    } else {
        Term::Wash
    }
}

/// Sum of the quantities of the lots that fall in bucket `term`.
pub open spec fn term_sum(lots: Seq<Lot>, now: int, term: Term) -> int
    decreases lots.len(),
{
    if lots.len() == 0 {
        0
    } else {
        term_sum(lots.drop_last(), now, term) + if term_of(lots.last().time.nanos as int, now) == term {
            lots.last().quantity as int
        } else {
            0
        }
    }
}

/// How long after its acquisition a lot of bucket `term` leaves it.
pub open spec fn exit_span(term: Term) -> int {
    match term {
        Term::Long => 0,
        Term::Short => short_span(),
        Term::Wash => wash_span(),
    }
}

/// The latest instant at which a lot of bucket `term` leaves it, over all the
/// lots in that bucket; `None` when the bucket is empty.
pub open spec fn latest_exit(lots: Seq<Lot>, now: int, term: Term) -> Option<int>
    decreases lots.len(),
{
    if lots.len() == 0 {
        None
    } else {
        let earlier = latest_exit(lots.drop_last(), now, term);
        if term_of(lots.last().time.nanos as int, now) == term {
            let exit = lots.last().time.nanos + exit_span(term);
            match earlier {
                None => Some(exit),
                Some(e) => Some(if e >= exit { e } else { exit }),
            }
        } else {
            earlier
        }
    }
}

/// The nanoseconds of an optional instant.
pub open spec fn opt_nanos(t: Option<Instant>) -> Option<int> {
    match t {
        None => None,
        Some(i) => Some(i.nanos as int),
    }
}

/// Aging of the lots of one security: how much of the holding is long-term,
/// short-term and inside the wash window, and when the last lot of each of
/// the two recent buckets leaves it.
#[derive(Debug, Clone, PartialEq)]
pub struct TermReport {
    pub symbol: String,
    pub long_term: i128,
    pub short_term: i128,
    pub wash: i128,
    pub short_exit: Option<Instant>,
    pub wash_exit: Option<Instant>,
}

impl TermReport {
    /// The report of `lots` as seen at `now`.
    pub open spec fn matches(self, symbol: Seq<char>, lots: Seq<Lot>, now: int) -> bool {
        &&& self.symbol@ == symbol
        &&& self.long_term == term_sum(lots, now, Term::Long)
        &&& self.short_term == term_sum(lots, now, Term::Short)
        &&& self.wash == term_sum(lots, now, Term::Wash)
        &&& opt_nanos(self.short_exit) == latest_exit(lots, now, Term::Short)
        &&& opt_nanos(self.wash_exit) == latest_exit(lots, now, Term::Wash)
    }

    /// Classifies each lot by its age at `now` and totals the buckets.
    pub fn new(symbol: &str, lots: &[Lot], now: Instant) -> (r: TermReport)
        requires
            now.in_range(),
            times_in_range(lots@),
        ensures
            r.matches(symbol@, lots@, now.nanos as int),
    {
        let short_nanos = SHORT_DAYS * NANOS_PER_DAY;
        let wash_nanos = WASH_DAYS * NANOS_PER_DAY;
        let one_year_ago = now.nanos - short_nanos;
        let wash_start = now.nanos - wash_nanos;
        let ghost n = now.nanos as int;
        let mut long_term: i128 = 0;
        let mut short_term: i128 = 0;
        let mut wash: i128 = 0;
        let mut short_exit: Option<Instant> = None;
        let mut wash_exit: Option<Instant> = None;
        let mut i: usize = 0;
        while i < lots.len()
            invariant
                i <= lots.len(),
                now.in_range(),
                times_in_range(lots@),
                short_nanos == short_span(),
                wash_nanos == wash_span(),
                one_year_ago == n - short_span(),
                wash_start == n - wash_span(),
                long_term == term_sum(lots@.take(i as int), n, Term::Long),
                short_term == term_sum(lots@.take(i as int), n, Term::Short),
                wash == term_sum(lots@.take(i as int), n, Term::Wash),
                opt_nanos(short_exit) == latest_exit(lots@.take(i as int), n, Term::Short),
                opt_nanos(wash_exit) == latest_exit(lots@.take(i as int), n, Term::Wash),
            decreases lots.len() - i,
        {
            let lot = &lots[i];
            proof {
                assert(lots@.take(i + 1).drop_last() == lots@.take(i as int));
                assert(lots@.take(i + 1).last() == lots@[i as int]);
                lemma_term_sum_bound(lots@.take(i + 1), n, Term::Long);
                lemma_term_sum_bound(lots@.take(i + 1), n, Term::Short);
                lemma_term_sum_bound(lots@.take(i + 1), n, Term::Wash);
                assert(lots@[i as int].time.in_range());
            }
            if lot.time.nanos < one_year_ago {
                long_term = long_term + lot.quantity as i128;
            } else if lot.time.nanos < wash_start {
                short_term = short_term + lot.quantity as i128;
                let exit = lot.time.nanos + short_nanos;
                short_exit = match short_exit {
                    None => Some(Instant { nanos: exit }),
                    Some(previous) => Some(
                        if previous.nanos >= exit {
                            previous
                        } else {
                            Instant { nanos: exit }
                        },
                    ),
                };
            } else {
                wash = wash + lot.quantity as i128;
                let exit = lot.time.nanos + wash_nanos;
                wash_exit = match wash_exit {
                    None => Some(Instant { nanos: exit }),
                    Some(previous) => Some(
                        if previous.nanos >= exit {
                            previous
                        } else {
                            Instant { nanos: exit }
                        },
                    ),
                };
            }
            i = i + 1;
        }
        proof {
            assert(lots@.take(lots.len() as int) == lots@);
        }
        TermReport {
            symbol: symbol.to_owned(),
            long_term,
            short_term,
            wash,
            short_exit,
            wash_exit,
        }
    }
}

/// The groups of `groups` whose symbol the catalog `products` lists, in order.
pub open spec fn listed_groups(groups: Seq<(String, Vec<Lot>)>, products: Seq<Product>) -> Seq<
    (String, Vec<Lot>),
>
    decreases groups.len(),
{
    if groups.len() == 0 {
        Seq::empty()
    } else if catalog_entry(products, groups.last().0@) is Some {
        listed_groups(groups.drop_last(), products).push(groups.last())
    } else {
        listed_groups(groups.drop_last(), products)
    }
}

/// Every lot of every group lies in the range of date arithmetic.
pub open spec fn groups_in_range(groups: Seq<(String, Vec<Lot>)>) -> bool {
    forall|i: int| 0 <= i < groups.len() ==> times_in_range((#[trigger] groups[i]).1@)
}

/// One aging report for each group of lots, keyed by symbol, whose symbol
/// the catalog lists; groups of unlisted symbols are skipped.
pub fn term_reports(
    lots_by_product: &Vec<(String, Vec<Lot>)>,
    products: &Vec<Product>,
    now: Instant,
) -> (r: Vec<TermReport>)
    requires
        now.in_range(),
        groups_in_range(lots_by_product@),
    ensures
        r.len() == listed_groups(lots_by_product@, products@).len(),
        forall|i: int|
            0 <= i < r.len() ==> (#[trigger] r@[i]).matches(
                listed_groups(lots_by_product@, products@)[i].0@,
                listed_groups(lots_by_product@, products@)[i].1@,
                now.nanos as int,
            ),
{
    let mut reports: Vec<TermReport> = Vec::new();
    let mut i: usize = 0;
    while i < lots_by_product.len()
        invariant
            i <= lots_by_product.len(),
            now.in_range(),
            groups_in_range(lots_by_product@),
            reports.len() == listed_groups(lots_by_product@.take(i as int), products@).len(),
            forall|k: int|
                0 <= k < reports.len() ==> (#[trigger] reports@[k]).matches(
                    listed_groups(lots_by_product@.take(i as int), products@)[k].0@,
                    listed_groups(lots_by_product@.take(i as int), products@)[k].1@,
                    now.nanos as int,
                ),
        decreases lots_by_product.len() - i,
    {
        let group = &lots_by_product[i];
        assert(lots_by_product@.take(i + 1).drop_last() == lots_by_product@.take(i as int));
        assert(lots_by_product@.take(i + 1).last() == lots_by_product@[i as int]);
        assert(times_in_range(lots_by_product@[i as int].1@));
        if find_product(products, group.0.as_str()).is_some() {
            let report = TermReport::new(group.0.as_str(), group.1.as_slice(), now);
            reports.push(report);
        }
        i = i + 1;
    }
    assert(lots_by_product@.take(lots_by_product.len() as int) == lots_by_product@);
    reports
}

/// The sum of one bucket of `n` lots is at most `n` times the largest
/// magnitude of an `i64`.
proof fn lemma_term_sum_bound(lots: Seq<Lot>, now: int, term: Term)
    ensures
        -(lots.len() * 0x8000_0000_0000_0000) <= term_sum(lots, now, term) <= lots.len()
            * 0x8000_0000_0000_0000,
    decreases lots.len(),
{
    if lots.len() > 0 {
        lemma_term_sum_bound(lots.drop_last(), now, term);
    }
}

proof fn lemma_buckets_partition(lots: Seq<Lot>, now: int)
    ensures
        term_sum(lots, now, Term::Long) + term_sum(lots, now, Term::Short) + term_sum(
            lots,
            now,
            Term::Wash,
        ) == quantity_sum(lots),
    decreases lots.len(),
{
    if lots.len() > 0 {
        lemma_buckets_partition(lots.drop_last(), now);
    }
}

/// Every lot falls in exactly one bucket, so the long-term, short-term and
/// wash totals of a report add up to the sum of all the lot quantities.
pub proof fn lemma_report_totals(r: TermReport, symbol: Seq<char>, lots: Seq<Lot>, now: int)
    requires
        r.matches(symbol, lots, now),
    ensures
        r.long_term + r.short_term + r.wash == quantity_sum(lots),
{
    lemma_buckets_partition(lots, now);
}

/// A lot acquired exactly 365 days before the reference instant is short-term,
/// not long-term: the long-term boundary is strict.
pub proof fn lemma_year_boundary_is_short(r: TermReport, symbol: Seq<char>, lot: Lot, now: int)
    requires
        lot.time.nanos == now - short_span(),
        r.matches(symbol, seq![lot], now),
    ensures
        term_of(lot.time.nanos as int, now) == Term::Short,
        r.long_term == 0,
        r.short_term == lot.quantity,
        r.wash == 0,
{
    let lots = seq![lot];
    assert(lots.drop_last() =~= Seq::<Lot>::empty());
    assert(lots.last() == lot);
    assert(term_sum(lots.drop_last(), now, Term::Long) == 0);
    assert(term_sum(lots.drop_last(), now, Term::Short) == 0);
    assert(term_sum(lots.drop_last(), now, Term::Wash) == 0);
}

/// A lot acquired exactly 32 days before the reference instant is in the wash
/// window, not short-term: the wash boundary is strict.
pub proof fn lemma_wash_boundary_is_wash(r: TermReport, symbol: Seq<char>, lot: Lot, now: int)
    requires
        lot.time.nanos == now - wash_span(),
        r.matches(symbol, seq![lot], now),
    ensures
        term_of(lot.time.nanos as int, now) == Term::Wash,
        r.long_term == 0,
        r.short_term == 0,
        r.wash == lot.quantity,
{
    let lots = seq![lot];
    assert(lots.drop_last() =~= Seq::<Lot>::empty());
    assert(lots.last() == lot);
    assert(term_sum(lots.drop_last(), now, Term::Long) == 0);
    assert(term_sum(lots.drop_last(), now, Term::Short) == 0);
    assert(term_sum(lots.drop_last(), now, Term::Wash) == 0);
}

} // verus!
