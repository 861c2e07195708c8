use vstd::prelude::*;
use crate::amount::{SCALE, floor_div};
use crate::instant::Instant;
use crate::lot::{Lot, lots_for, quantity_sum, times_in_range, lemma_quantity_sum_bound};
use crate::market::{Product, catalog_entry, find_product};
use crate::ownership::Ownership;
use crate::term::TermReport;
use crate::text::{
    text_lt, text_less, decimal_text, push_decimal, lemma_text_lt_total, lemma_text_lt_transitive,
};

verus! {

/// Some lot of `lots` is held in account `a`.
pub open spec fn has_account(lots: Seq<Lot>, a: Seq<char>) -> bool {
    exists|i: int| 0 <= i < lots.len() && (#[trigger] lots[i]).account@ == a
}

/// Sum of the quantities that `lots` hold in account `a`, in ticks.
pub open spec fn account_total(lots: Seq<Lot>, a: Seq<char>) -> int
    decreases lots.len(),
{
    if lots.len() == 0 {
        0
    } else {
        account_total(lots.drop_last(), a) + if lots.last().account@ == a {
            lots.last().quantity as int
        } else {
            0
        }
    }
}

/// The distinct accounts of `lots`, in order of first appearance.
pub open spec fn accounts(lots: Seq<Lot>) -> Seq<Seq<char>>
    decreases lots.len(),
{
    if lots.len() == 0 {
        Seq::empty()
    } else if accounts(lots.drop_last()).contains(lots.last().account@) {
        accounts(lots.drop_last())
    } else {
        accounts(lots.drop_last()).push(lots.last().account@)
    }
}

/// Account `a` ranks above account `b`: it holds strictly more, or as much
/// under an ordinally greater name.
pub open spec fn outranks(lots: Seq<Lot>, a: Seq<char>, b: Seq<char>) -> bool {
    account_total(lots, a) > account_total(lots, b) || (account_total(lots, a) == account_total(
        lots,
        b,
    ) && text_lt(b, a))
}

/// `a` is the primary account of `lots`: it ranks above every other account.
pub open spec fn is_primary(lots: Seq<Lot>, a: Seq<char>) -> bool {
    &&& has_account(lots, a)
    &&& forall|b: Seq<char>| has_account(lots, b) && b != a ==> #[trigger] outranks(lots, a, b)
}

/// Label of a holding spread over `primary` and `others` further accounts:
/// the primary account alone, or followed by ` + ` and the count of the others.
pub open spec fn accounts_label(primary: Seq<char>, others: nat) -> Seq<char> {
    if others == 0 {
        primary
    } else {
        primary + seq![' ', '+', ' '] + decimal_text(others)
    }
}

/// The label of a holding is the label of its primary account and of the
/// number of its other accounts.
pub open spec fn is_accounts_label(lots: Seq<Lot>, label: Seq<char>) -> bool {
    exists|a: Seq<char>|
        #[trigger] is_primary(lots, a) && label == accounts_label(a, (accounts(lots).len() - 1) as nat)
}

proof fn lemma_accounts_contains(lots: Seq<Lot>, a: Seq<char>)
    ensures
        accounts(lots).contains(a) <==> has_account(lots, a),
    decreases lots.len(),
{
    if lots.len() > 0 {
        let prefix = lots.drop_last();
        let prev = accounts(prefix);
        let x = lots.last().account@;
        lemma_accounts_contains(prefix, a);
        if has_account(lots, a) {
            let i = choose|i: int| 0 <= i < lots.len() && (#[trigger] lots[i]).account@ == a;
            if i < lots.len() - 1 {
                assert(prefix[i] == lots[i]);
                assert(has_account(prefix, a));
            }
        }
        if has_account(prefix, a) {
            let i = choose|i: int| 0 <= i < prefix.len() && (#[trigger] prefix[i]).account@ == a;
            assert(lots[i] == prefix[i]);
        }
        if x == a {
            assert(lots[lots.len() - 1].account@ == a);
        }
        if !prev.contains(x) {
            if prev.contains(a) {
                let k = choose|k: int| 0 <= k < prev.len() && prev[k] == a;
                assert(prev.push(x)[k] == a);
            }
            if x == a {
                assert(prev.push(x)[prev.len() as int] == a);
            }
            if prev.push(x).contains(a) {
                let k = choose|k: int| 0 <= k < prev.len() + 1 && prev.push(x)[k] == a;
                if k < prev.len() {
                    assert(prev[k] == a);
                }
            }
        }
    }
}

proof fn lemma_accounts_distinct(lots: Seq<Lot>)
    ensures
        forall|i: int, j: int|
            0 <= i < j < accounts(lots).len() ==> accounts(lots)[i] != accounts(lots)[j],
    decreases lots.len(),
{
    if lots.len() > 0 {
        let prev = accounts(lots.drop_last());
        let x = lots.last().account@;
        lemma_accounts_distinct(lots.drop_last());
        if !prev.contains(x) {
            assert forall|i: int| 0 <= i < prev.len() implies prev[i] != x by {
                if prev[i] == x {
                    assert(prev.contains(x));
                }
            }
        }
    }
}

proof fn lemma_account_total_absent(lots: Seq<Lot>, a: Seq<char>)
    requires
        !has_account(lots, a),
    ensures
        account_total(lots, a) == 0,
    decreases lots.len(),
{
    if lots.len() > 0 {
        let prefix = lots.drop_last();
        assert(lots[lots.len() - 1].account@ != a);
        assert(!has_account(prefix, a)) by {
            if has_account(prefix, a) {
                let i = choose|i: int| 0 <= i < prefix.len() && (#[trigger] prefix[i]).account@ == a;
                assert(lots[i] == prefix[i]);
            }
        }
        lemma_account_total_absent(prefix, a);
    }
}

proof fn lemma_account_total_bound(lots: Seq<Lot>, a: Seq<char>)
    ensures
        -(lots.len() * 0x8000_0000_0000_0000) <= account_total(lots, a) <= lots.len()
            * 0x8000_0000_0000_0000,
    decreases lots.len(),
{
    if lots.len() > 0 {
        lemma_account_total_bound(lots.drop_last(), a);
    }
}

proof fn lemma_outranks_transitive(lots: Seq<Lot>, a: Seq<char>, b: Seq<char>, c: Seq<char>)
    requires
        outranks(lots, a, b),
        outranks(lots, b, c),
    ensures
        outranks(lots, a, c),
{
    if account_total(lots, a) == account_total(lots, b) && account_total(lots, b)
        == account_total(lots, c) {
        lemma_text_lt_transitive(c, b, a);
    }
}

/// Label naming the account that holds the most of `lots` and how many other
/// accounts hold some: `"<primary>"` or `"<primary> + <others>"`. Equal
/// holdings go to the ordinally greatest account name.
pub fn format_accounts(lots: &Vec<Lot>) -> (r: String)
    requires
        lots.len() > 0,
    ensures
        is_accounts_label(lots@, r@),
{
    let mut names: Vec<String> = Vec::new();
    let mut totals: Vec<i128> = Vec::new();
    let mut i: usize = 0;
    while i < lots.len()
        invariant
            i <= lots.len(),
            names.len() == totals.len(),
            names.len() == accounts(lots@.take(i as int)).len(),
            forall|k: int| 0 <= k < names.len() ==> (#[trigger] names@[k])@ == accounts(
                lots@.take(i as int),
            )[k],
            forall|k: int|
                0 <= k < names.len() ==> #[trigger] totals@[k] == account_total(
                    lots@.take(i as int),
                    names@[k]@,
                ),
        decreases lots.len() - i,
    {
        let lot = &lots[i];
        let ghost before = lots@.take(i as int);
        let ghost after = lots@.take(i + 1);
        assert(after.drop_last() == before);
        assert(after.last() == lots@[i as int]);
        proof {
            lemma_accounts_distinct(before);
        }
        let mut j: usize = 0;
        while j < names.len() && names[j] != lot.account
            invariant
                j <= names.len(),
                forall|k: int| 0 <= k < j ==> (#[trigger] names@[k])@ != lot.account@,
            decreases names.len() - j,
        {
            j = j + 1;
        }
        proof {
            lemma_account_total_bound(after, lot.account@);
            assert forall|k: int| 0 <= k < names.len() implies (#[trigger] totals@[k])
                == account_total(before, names@[k]@) && -(i * 0x8000_0000_0000_0000) <= totals@[k]
                <= i * 0x8000_0000_0000_0000 by {
                lemma_account_total_bound(before, names@[k]@);
            }
        }
        if j < names.len() {
            proof {
                assert(accounts(before).contains(lot.account@)) by {
                    assert(accounts(before)[j as int] == lot.account@);
                }
            }
            let updated = totals[j] + lot.quantity as i128;
            totals[j] = updated;
        } else {
            proof {
                assert(!accounts(before).contains(lot.account@)) by {
                    if accounts(before).contains(lot.account@) {
                        let k = choose|k: int|
                            0 <= k < accounts(before).len() && accounts(before)[k]
                                == lot.account@;
                        assert(names@[k]@ == accounts(before)[k]);
                    }
                }
                lemma_accounts_contains(before, lot.account@);
                lemma_account_total_absent(before, lot.account@);
            }
            names.push(lot.account.clone());
            totals.push(lot.quantity as i128);
        }
        i = i + 1;
    }
    let ghost all = lots@;
    proof {
        assert(lots@.take(lots.len() as int) == lots@);
        lemma_accounts_distinct(all);
    }
    let mut best: usize = 0;
    let mut j: usize = 1;
    while j < names.len()
        invariant
            names.len() == totals.len(),
            names.len() == accounts(all).len(),
            names.len() > 0,
            best < j <= names.len(),
            forall|k: int| 0 <= k < names.len() ==> (#[trigger] names@[k])@ == accounts(all)[k],
            forall|k: int|
                0 <= k < names.len() ==> #[trigger] totals@[k] == account_total(all, names@[k]@),
            forall|p: int, q: int|
                0 <= p < q < accounts(all).len() ==> accounts(all)[p] != accounts(all)[q],
            forall|k: int|
                0 <= k < j && k != best ==> outranks(all, names@[best as int]@, #[trigger] names@[k]@),
        decreases names.len() - j,
    {
        let better = totals[j] > totals[best] || (totals[j] == totals[best] && text_less(
            names[best].as_str(),
            names[j].as_str(),
        ));
        proof {
            assert(names@[j as int]@ != names@[best as int]@);
            lemma_text_lt_total(names@[j as int]@, names@[best as int]@);
        }
        if better {
            proof {
                assert forall|k: int| 0 <= k < j + 1 && k != j implies outranks(
                    all,
                    names@[j as int]@,
                    #[trigger] names@[k]@,
                ) by {
                    if k != best {
                        lemma_outranks_transitive(
                            all,
                            names@[j as int]@,
                            names@[best as int]@,
                            names@[k]@,
                        );
                    }
                }
            }
            best = j;
        }
        j = j + 1;
    }
    let ghost primary = names@[best as int]@;
    proof {
        assert forall|b: Seq<char>| has_account(all, b) && b != primary implies #[trigger] outranks(
            all,
            primary,
            b,
        ) by {
            lemma_accounts_contains(all, b);
            let k = choose|k: int| 0 <= k < accounts(all).len() && accounts(all)[k] == b;
            assert(names@[k]@ == b);
        }
        lemma_accounts_contains(all, primary);
        assert(accounts(all)[best as int] == primary);
    }
    let mut label = names[best].clone();
    let others = names.len() - 1;
    if others > 0 {
        label.append(" + ");
        push_decimal(&mut label, others as u128);
        proof {
            reveal_strlit(" + ");
        }
    }
    proof {
        assert(label@ == accounts_label(primary, (accounts(all).len() - 1) as nat));
        assert(is_primary(all, primary));
    }
    label
}

/// Summary of one security held: its catalog identity, the aggregate quantity,
/// the accounts holding it, its ownership tier when its supply is fixed, and
/// the aging of its lots.
#[derive(Debug, Clone, PartialEq)]
pub struct HoldingRow {
    pub symbol: String,
    pub name: String,
    pub accounts: String,
    /// Aggregate quantity in whole units, rounded down.
    pub quantity: i128,
    /// Aggregate quantity in hundred-millionths, exact.
    pub total: i128,
    pub ownership: Option<Ownership>,
    pub term: TermReport,
}

/// Some lot of `lots` references `symbol`, and the catalog lists it.
pub open spec fn is_held_listed(lots: Seq<Lot>, products: Seq<Product>, symbol: Seq<char>) -> bool {
    &&& exists|i: int| 0 <= i < lots.len() && (#[trigger] lots[i]).product@ == symbol
    &&& catalog_entry(products, symbol) is Some
}

/// Ownership reported for an aggregate of `total` ticks of `product`: none
/// unless the product has a fixed, non-zero supply.
pub open spec fn ownership_of(product: Product, total: int) -> Option<Ownership> {
    match product.spec_supply() {
        Some(n) => if n > 0 {
            Some(Ownership::spec_new(total, n as int))
        } else {
            None
        },
        None => None,
    }
}

/// `row` summarizes the lots of `lots` that reference its symbol, as seen at
/// `now`, against the catalog entry of that symbol.
pub open spec fn row_matches(
    row: HoldingRow,
    lots: Seq<Lot>,
    products: Seq<Product>,
    now: int,
) -> bool {
    let group = lots_for(lots, row.symbol@);
    match catalog_entry(products, row.symbol@) {
        None => false,
        Some(p) => {
            &&& row.name@ == p.spec_name()
            &&& row.total == quantity_sum(group)
            &&& row.quantity == floor_div(quantity_sum(group), SCALE as int)
            &&& is_accounts_label(group, row.accounts@)
            &&& row.term.matches(row.symbol@, group, now)
            &&& row.ownership == ownership_of(p, quantity_sum(group))
        },
    }
}

proof fn lemma_lots_for_in_range(lots: Seq<Lot>, symbol: Seq<char>)
    requires
        times_in_range(lots),
    ensures
        times_in_range(lots_for(lots, symbol)),
    decreases lots.len(),
{
    if lots.len() > 0 {
        let prefix = lots.drop_last();
        assert(times_in_range(prefix)) by {
            assert forall|i: int| 0 <= i < prefix.len() implies (#[trigger] prefix[i]).time.in_range() by {
                assert(prefix[i] == lots[i]);
            }
        }
        assert(lots[lots.len() - 1].time.in_range());
        lemma_lots_for_in_range(prefix, symbol);
    }
}

proof fn lemma_lots_for_nonempty(lots: Seq<Lot>, symbol: Seq<char>, i: int)
    requires
        0 <= i < lots.len(),
        lots[i].product@ == symbol,
    ensures
        lots_for(lots, symbol).len() > 0,
    decreases lots.len(),
{
    if i < lots.len() - 1 {
        assert(lots.drop_last()[i] == lots[i]);
        lemma_lots_for_nonempty(lots.drop_last(), symbol, i);
    }
}

/// The lots of `lots` that reference `symbol`, copied, and their total.
fn collect_group(lots: &Vec<Lot>, symbol: &String) -> (r: (Vec<Lot>, i128))
    ensures
        r.0@ == lots_for(lots@, symbol@),
        r.1 == quantity_sum(r.0@),
{
    let mut group: Vec<Lot> = Vec::new();
    let mut total: i128 = 0;
    let mut i: usize = 0;
    while i < lots.len()
        invariant
            i <= lots.len(),
            group.len() <= i,
            group@ == lots_for(lots@.take(i as int), symbol@),
            total == quantity_sum(group@),
        decreases lots.len() - i,
    {
        assert(lots@.take(i + 1).drop_last() == lots@.take(i as int));
        assert(lots@.take(i + 1).last() == lots@[i as int]);
        if lots[i].product == *symbol {
            let lot = lots[i].duplicate();
            proof {
                lemma_quantity_sum_bound(group@.push(lot));
                assert(group@.push(lot).drop_last() == group@);
            }
            total = total + lot.quantity as i128;
            group.push(lot);
        }
        i = i + 1;
    }
    assert(lots@.take(lots.len() as int) == lots@);
    (group, total)
}

/// Every element of `v` is strictly below the next ones in ordinal order.
pub open spec fn strictly_sorted(v: Seq<String>) -> bool {
    forall|i: int, j: int| 0 <= i < j < v.len() ==> text_lt(#[trigger] v[i]@, #[trigger] v[j]@)
}

/// The symbols of `lots` that the catalog lists, once each, in ascending
/// ordinal order.
fn listed_symbols(lots: &Vec<Lot>, products: &Vec<Product>) -> (r: Vec<String>)
    ensures
        strictly_sorted(r@),
        forall|s: Seq<char>|
            (exists|k: int| 0 <= k < r.len() && (#[trigger] r@[k])@ == s) <==> is_held_listed(
                lots@,
                products@,
                s,
            ),
{
    let mut syms: Vec<String> = Vec::new();
    let mut i: usize = 0;
    while i < lots.len()
        invariant
            i <= lots.len(),
            strictly_sorted(syms@),
            forall|s: Seq<char>|
                (exists|k: int| 0 <= k < syms.len() && (#[trigger] syms@[k])@ == s) <==> (
                is_held_listed(lots@.take(i as int), products@, s)),
        decreases lots.len() - i,
    {
        let sym = &lots[i].product;
        let ghost before = lots@.take(i as int);
        let ghost after = lots@.take(i + 1);
        proof {
            assert forall|s: Seq<char>| #![auto]
                is_held_listed(after, products@, s) <==> (is_held_listed(before, products@, s) || (
                s == sym@ && catalog_entry(products@, s) is Some)) by {
                if exists|l: int| 0 <= l < after.len() && (#[trigger] after[l]).product@ == s {
                    let l = choose|l: int| 0 <= l < after.len() && (#[trigger] after[l]).product@ == s;
                    if l < i {
                        assert(before[l] == after[l]);
                    }
                }
                if exists|l: int| 0 <= l < before.len() && (#[trigger] before[l]).product@ == s {
                    let l = choose|l: int| 0 <= l < before.len() && (#[trigger] before[l]).product@ == s;
                    assert(before[l] == after[l]);
                }
                if s == sym@ {
                    assert(after[i as int].product@ == s);
                }
            }
        }
        let listed = find_product(products, sym.as_str()).is_some();
        let mut present = false;
        let mut k: usize = 0;
        while k < syms.len()
            invariant
                k <= syms.len(),
                present ==> exists|m: int| 0 <= m < syms.len() && (#[trigger] syms@[m])@ == sym@,
                !present ==> forall|m: int| 0 <= m < k ==> (#[trigger] syms@[m])@ != sym@,
            decreases syms.len() - k,
        {
            if syms[k] == *sym {
                present = true;
            }
            k = k + 1;
        }
        if listed && !present {
            let mut pos: usize = 0;
            while pos < syms.len() && !text_less(sym.as_str(), syms[pos].as_str())
                invariant
                    pos <= syms.len(),
                    forall|m: int| 0 <= m < pos ==> text_lt((#[trigger] syms@[m])@, sym@),
                    forall|m: int| 0 <= m < syms.len() ==> (#[trigger] syms@[m])@ != sym@,
                decreases syms.len() - pos,
            {
                proof {
                    lemma_text_lt_total(syms@[pos as int]@, sym@);
                }
                pos = pos + 1;
            }
            let ghost old_syms = syms@;
            syms.insert(pos, sym.clone());
            proof {
                assert forall|m: int| pos <= m < old_syms.len() implies text_lt(
                    sym@,
                    (#[trigger] old_syms[m])@,
                ) by {
                    if m > pos {
                        lemma_text_lt_transitive(sym@, old_syms[pos as int]@, old_syms[m]@);
                    }
                }
                assert forall|a: int, b: int| 0 <= a < b < syms.len() implies text_lt(
                    #[trigger] syms@[a]@,
                    #[trigger] syms@[b]@,
                ) by {
                    if b < pos {
                        assert(syms@[a] == old_syms[a]);
                        assert(syms@[b] == old_syms[b]);
                    } else if b == pos {
                        assert(syms@[a] == old_syms[a]);
                    } else if a == pos {
                        assert(syms@[b] == old_syms[b - 1]);
                    } else if a < pos {
                        assert(syms@[a] == old_syms[a]);
                        assert(syms@[b] == old_syms[b - 1]);
                        lemma_text_lt_transitive(old_syms[a]@, sym@, old_syms[b - 1]@);
                    } else {
                        assert(syms@[a] == old_syms[a - 1]);
                        assert(syms@[b] == old_syms[b - 1]);
                    }
                }
                assert forall|s: Seq<char>|
                    (exists|k: int| 0 <= k < syms.len() && (#[trigger] syms@[k])@ == s) <==> (
                    is_held_listed(after, products@, s)) by {
                    if exists|k: int| 0 <= k < syms.len() && (#[trigger] syms@[k])@ == s {
                        let k = choose|k: int| 0 <= k < syms.len() && (#[trigger] syms@[k])@ == s;
                        if k < pos {
                            assert(syms@[k] == old_syms[k]);
                        } else if k > pos {
                            assert(syms@[k] == old_syms[k - 1]);
                        }
                    }
                    if exists|k: int| 0 <= k < old_syms.len() && (#[trigger] old_syms[k])@ == s {
                        let k = choose|k: int| 0 <= k < old_syms.len() && (#[trigger] old_syms[k])@ == s;
                        if k < pos {
                            assert(syms@[k] == old_syms[k]);
                        } else {
                            assert(syms@[k + 1] == old_syms[k]);
                        }
                    }
                    if s == sym@ {
                        assert(syms@[pos as int]@ == s);
                    }
                }
            }
        }
        i = i + 1;
    }
    assert(lots@.take(lots.len() as int) == lots@);
    syms
}

/// Per-security holding summaries of `lots` as seen at `now`: one row for each
/// symbol that some lot references and the catalog `products` lists, in
/// ascending ordinal order of symbol. Lots of unlisted symbols are left out.
pub fn holding_rows(lots: &Vec<Lot>, products: &Vec<Product>, now: Instant) -> (r: Vec<HoldingRow>)
    requires
        now.in_range(),
        times_in_range(lots@),
    ensures
        forall|i: int, j: int|
            0 <= i < j < r.len() ==> text_lt(#[trigger] r@[i].symbol@, #[trigger] r@[j].symbol@),
        forall|s: Seq<char>|
            (exists|i: int| 0 <= i < r.len() && (#[trigger] r@[i]).symbol@ == s) <==> is_held_listed(
                lots@,
                products@,
                s,
            ),
        forall|i: int|
            0 <= i < r.len() ==> row_matches(#[trigger] r@[i], lots@, products@, now.nanos as int),
{
    let syms = listed_symbols(lots, products);
    let mut rows: Vec<HoldingRow> = Vec::new();
    let mut k: usize = 0;
    while k < syms.len()
        invariant
            k <= syms.len(),
            rows.len() == k,
            now.in_range(),
            times_in_range(lots@),
            forall|m: int| 0 <= m < k ==> (#[trigger] rows@[m]).symbol@ == syms@[m]@,
            forall|s: Seq<char>|
                (exists|m: int| 0 <= m < syms.len() && (#[trigger] syms@[m])@ == s)
                    <==> is_held_listed(lots@, products@, s),
            forall|m: int|
                0 <= m < k ==> row_matches(#[trigger] rows@[m], lots@, products@, now.nanos as int),
        decreases syms.len() - k,
    {
        let symbol = &syms[k];
        proof {
            assert(is_held_listed(lots@, products@, symbol@)) by {
                assert(syms@[k as int]@ == symbol@);
            }
        }
        let (group, total) = collect_group(lots, symbol);
        proof {
            let l = choose|l: int| 0 <= l < lots@.len() && (#[trigger] lots@[l]).product@ == symbol@;
            lemma_lots_for_nonempty(lots@, symbol@, l);
            lemma_lots_for_in_range(lots@, symbol@);
        }
        let index = match find_product(products, symbol.as_str()) {
            Some(index) => index,
            None => {
                assert(false);
                0
            },
        };
        let product = &products[index];
        let ownership = match product.supply() {
            Some(outstanding) => if outstanding > 0 {
                Some(Ownership::new(total, outstanding))
            } else {
                None
            },
            None => None,
        };
        let quantity = match total.checked_div_euclid(SCALE as i128) {
            Some(q) => q,
            None => 0,
        };
        let row = HoldingRow {
            symbol: symbol.clone(),
            name: product.name().to_owned(),
            accounts: format_accounts(&group),
            quantity,
            total,
            ownership,
            term: TermReport::new(symbol.as_str(), group.as_slice(), now),
        };
        rows.push(row);
        proof {
            assert(rows@[k as int] == row);
        }
        k = k + 1;
    }
    proof {
        assert forall|s: Seq<char>|
            (exists|i: int| 0 <= i < rows.len() && (#[trigger] rows@[i]).symbol@ == s)
                <==> is_held_listed(lots@, products@, s) by {
            if exists|i: int| 0 <= i < rows.len() && (#[trigger] rows@[i]).symbol@ == s {
                let i = choose|i: int| 0 <= i < rows.len() && (#[trigger] rows@[i]).symbol@ == s;
                assert(syms@[i]@ == s);
            }
            if is_held_listed(lots@, products@, s) {
                let m = choose|m: int| 0 <= m < syms.len() && (#[trigger] syms@[m])@ == s;
                assert(rows@[m].symbol@ == s);
            }
        }
    }
    rows
}

/// The rows of `rows` that have an ownership tier (when `owned`) or that
/// have none (otherwise), in their order.
pub open spec fn rows_with_ownership(rows: Seq<HoldingRow>, owned: bool) -> Seq<HoldingRow>
    decreases rows.len(),
{
    if rows.len() == 0 {
        Seq::empty()
    } else if (rows.last().ownership is Some) == owned {
        rows_with_ownership(rows.drop_last(), owned).push(rows.last())
    } else {
        rows_with_ownership(rows.drop_last(), owned)
    }
}

/// Display order of holding rows: the rows with an ownership tier first, then
/// the others, each group keeping its order.
pub fn order_by_ownership(rows: Vec<HoldingRow>) -> (r: Vec<HoldingRow>)
    ensures
        r@ == rows_with_ownership(rows@, true) + rows_with_ownership(rows@, false),
{
    let ghost all = rows@;
    let mut rows = rows;
    let mut owned: Vec<HoldingRow> = Vec::new();
    let mut rest: Vec<HoldingRow> = Vec::new();
    let mut i: usize = 0;
    let n = rows.len();
    while i < n
        invariant
            n == all.len(),
            i <= n,
            rows@ == all.skip(i as int),
            owned@ == rows_with_ownership(all.take(i as int), true),
            rest@ == rows_with_ownership(all.take(i as int), false),
        decreases n - i,
    {
        assert(all.take(i + 1).drop_last() == all.take(i as int));
        assert(all.take(i + 1).last() == all[i as int]);
        assert(rows@.len() > 0);
        let row = rows.remove(0);
        assert(rows@ =~= all.skip(i + 1));
        if row.ownership.is_some() {
            owned.push(row);
        } else {
            rest.push(row);
        }
        i = i + 1;
    }
    assert(all.take(n as int) == all);
    owned.append(&mut rest);
    owned
}

} // verus!
