//! Figures on the groups of a collection.
use crate::grouped_collections::grouped_collection::GroupedCollection;
use crate::text::{decimal, decimal_text, decimal_wide, digit_char, rising, sort_numbers};
use vstd::prelude::*;
use vstd::relations::{sorted_by, total_ordering};
use vstd::seq_lib::lemma_sorted_unique;
use vstd::string::*;

verus! {

broadcast use vstd::string::group_string_axioms;

/// The fraction `n / d` rounded to the nearest whole number, and to the even
/// one of the two nearest where it lies half way between them.
pub open spec fn round_half_even(n: nat, d: nat) -> nat
    recommends
        d > 0,
{
    let q = n / d;
    let r = n % d;
    if 2 * r < d {
        q
    } else if 2 * r > d {
        q + 1
    } else if q % 2 == 0 {
        q
    } else {
        q + 1
    }
}

/// The first of the pairs `(n, p)`, `(2n, 2p)`, `(4n, 4p)`, ... whose first
/// part is `bound` or more.
pub open spec fn scaled(n: nat, p: nat, bound: nat) -> (nat, nat)
    decreases
            if n < bound {
                bound - n
            } else {
                0
            },
{
    if n == 0 || n >= bound {
        (n, p)
    } else {
        scaled(2 * n, 2 * p, bound)
    }
}

/// The smallest number that has 53 binary digits.
pub open spec fn mantissa() -> nat {
    0x10_0000_0000_0000
}

/// The average size of `groups` groups that hold `total` items, in
/// hundredths, as binary floating-point arithmetic with 53 significant digits
/// gives it: the quotient is rounded to 53 significant binary digits, and
/// that number to the nearest hundredth. Without groups the average is 0.
pub open spec fn average_hundredths(total: nat, groups: nat) -> nat {
    if total == 0 || groups == 0 {
        0
    } else {
        let (n, p) = scaled(total, 1, mantissa() * groups);
        round_half_even(100 * round_half_even(n, groups), p)
    }
}

/// A number of hundredths written with two decimal places.
pub open spec fn hundredths(h: nat) -> Seq<char> {
    decimal(h / 100) + seq!['.', digit_char(h % 100 / 10), digit_char(h % 10)]
}

/// Rounds `n / d` to the nearest whole number, half way to the even one.
fn round_to_even(n: u128, d: u128) -> (r: u128)
    requires
        d > 0,
    ensures
        r == round_half_even(n as nat, d as nat),
{
    let q = n / d;
    let r = n % d;
    if r == 0 {
        return q;
    }
    assert(d >= 2);
    assert(q < u128::MAX) by (nonlinear_arith)
        requires
            q == n / d,
            d >= 2,
            n <= u128::MAX,
    ;
    if r < d - r {
        q
    } else if r > d - r {
        q + 1
    } else if q % 2 == 0 {
        q
    } else {
        q + 1
    }
}

/// Writes the average size of `groups` groups that hold `total` items, with
/// two decimal places.
pub fn average_text(total: u128, groups: usize) -> (s: String)
    ensures
        s@ == hundredths(average_hundredths(total as nat, groups as nat)),
{
    proof {
        reveal_strlit("0.00");
        reveal_strlit(".");
    }
    if total == 0 || groups == 0 {
        assert("0.00"@ =~= hundredths(0));
        return "0.00".to_string();
    }
    let d = groups as u128;
    let bound: u128 = 0x10_0000_0000_0000u128 * d;
    let mut n: u128 = total;
    let mut p: u128 = 1;
    while n < bound
        invariant
            0 < n,
            0 < p <= n,
            d == groups,
            0 < d <= usize::MAX,
            bound == mantissa() * groups,
            scaled(total as nat, 1, bound as nat) == scaled(n as nat, p as nat, bound as nat),
            p == 1 || n < 2 * bound,
        decreases
                if n < bound {
                    bound - n
                } else {
                    0
                },
    {
        n = n * 2;
        p = p * 2;
    }
    let m = round_to_even(n, d);
    let mut s;
    if p == 1 {
        assert((100 * m) as nat % 1 == 0);
        assert(round_half_even((100 * m) as nat, 1) == 100 * m);
        s = decimal_wide(m);
        s.append(".");
        s.append("0");
        s.append("0");
        proof {
            reveal_strlit("0");
            let h = (100 * m) as nat;
            assert(h / 100 == m && h % 100 == 0 && h % 10 == 0);
            assert(s@ =~= hundredths(h));
        }
    } else {
        assert(m <= 0x20_0000_0000_0000) by (nonlinear_arith)
            requires
                n < 2 * (0x10_0000_0000_0000 * d),
                d > 0,
                m <= n / d + 1,
        ;
        let h = round_to_even(100 * m, p);
        s = decimal_wide(h / 100);
        s.append(".");
        s.append(crate::text::digit_text((h % 100 / 10) as usize));
        s.append(crate::text::digit_text((h % 10) as usize));
        assert(s@ =~= hundredths(h as nat));
    }
    s
}

/// The sizes of the groups of a listing.
pub open spec fn sizes_of<M, V>(listing: Seq<(M, Seq<V>)>) -> Seq<usize> {
    Seq::new(listing.len(), |i: int| listing[i].1.len() as usize)
}

/// The sum of a sequence of sizes.
pub open spec fn sum(sizes: Seq<usize>) -> nat
    decreases sizes.len(),
{
    if sizes.len() == 0 {
        0
    } else {
        sum(sizes.drop_last()) + sizes.last() as nat
    }
}

/// The order of sizes.
pub open spec fn at_most() -> spec_fn(usize, usize) -> bool {
    |a: usize, b: usize| a <= b
}

/// The sizes in rising order.
pub open spec fn in_order(sizes: Seq<usize>) -> Seq<usize> {
    sizes.sort_by(at_most())
}

/// The size in the middle of the sizes in rising order, and the upper one of
/// the two in the middle where their number is even; 0 without sizes.
pub open spec fn median(sizes: Seq<usize>) -> nat {
    if sizes.len() == 0 {
        0
    } else {
        in_order(sizes)[(sizes.len() / 2) as int] as nat
    }
}

/// The smallest of the sizes; 0 without sizes.
pub open spec fn smallest(sizes: Seq<usize>) -> nat {
    if sizes.len() == 0 {
        0
    } else {
        in_order(sizes).first() as nat
    }
}

/// The largest of the sizes; 0 without sizes.
pub open spec fn largest(sizes: Seq<usize>) -> nat {
    if sizes.len() == 0 {
        0
    } else {
        in_order(sizes).last() as nat
    }
}

/// The figures on groups of the given sizes, as they are reported.
pub open spec fn statistics_text(sizes: Seq<usize>) -> Seq<char> {
    "Statistics:\n  Total items: "@ + decimal(sum(sizes)) + "\n  Total groups: "@ + decimal(
        sizes.len(),
    ) + "\n\n  Group size:\n    Median: "@ + decimal(median(sizes)) + "\n    Average: "@
        + hundredths(average_hundredths(sum(sizes), sizes.len())) + "\n    Min: "@ + decimal(
        smallest(sizes),
    ) + "\n    Max: "@ + decimal(largest(sizes)) + "\n"@
}

/// The smallest and the largest of the sizes are among them, and no size is
/// smaller than the one or larger than the other.
pub proof fn lemma_in_order(sizes: Seq<usize>)
    ensures
        in_order(sizes).len() == sizes.len(),
        rising(in_order(sizes)),
        in_order(sizes).to_multiset() == sizes.to_multiset(),
{
    assert(total_ordering(at_most()));
    sizes.lemma_sort_by_ensures(at_most());
    sizes.to_multiset_ensures();
    in_order(sizes).to_multiset_ensures();
    let sorted = in_order(sizes);
    assert forall|i: int, j: int| 0 <= i < j < sorted.len() implies sorted[i] <= sorted[j] by {
        assert(at_most()(sorted[i], sorted[j]));
    }
}

/// Reports figures on the groups of a collection: the number of items and of
/// groups, and the median, the average, the smallest and the largest of the
/// sizes of the groups.
pub fn statistics_for<M: GroupedCollection<String, String>>(map: &M) -> (s: String)
    ensures
        s@ == statistics_text(sizes_of(map.listing())),
{
    let pairs = map.iter();
    let mut sizes: Vec<usize> = Vec::new();
    let mut total: u128 = 0;
    let mut i: usize = 0;
    while i < pairs.len()
        invariant
            i <= pairs.len(),
            sizes@ == sizes_of(map.listing()).take(i as int),
            crate::grouped_collections::grouped_collection::listed(pairs@) == map.listing(),
            total == sum(sizes@),
            total <= i * usize::MAX,
        decreases pairs.len() - i,
    {
        let size = pairs[i].1.len();
        assert(map.listing()[i as int].1 == pairs[i as int].1@);
        sizes.push(size);
        proof {
            assert(sizes@.drop_last() =~= sizes_of(map.listing()).take(i as int));
            assert(sizes@ =~= sizes_of(map.listing()).take(i + 1));
            assert((i + 1) * usize::MAX == i * usize::MAX + usize::MAX) by (nonlinear_arith);
            assert(i * usize::MAX <= usize::MAX * usize::MAX) by (nonlinear_arith)
                requires
                    i <= usize::MAX,
            ;
        }
        total = total + size as u128;
        i += 1;
    }
    let ghost all = sizes@;
    assert(all =~= sizes_of(map.listing()));
    let groups = sizes.len();
    sort_numbers(&mut sizes);
    proof {
        lemma_in_order(all);
        assert(total_ordering(at_most()));
        assert(sorted_by(sizes@, at_most()));
        assert(sorted_by(in_order(all), at_most()));
        lemma_sorted_unique(sizes@, in_order(all), at_most());
    }
    let middle = if groups == 0 {
        0
    } else {
        sizes[groups / 2]
    };
    let least = if groups == 0 {
        0
    } else {
        sizes[0]
    };
    let most = if groups == 0 {
        0
    } else {
        sizes[groups - 1]
    };
    let mut s = "Statistics:\n  Total items: ".to_string();
    s.append(decimal_wide(total).as_str());
    s.append("\n  Total groups: ");
    s.append(decimal_text(groups).as_str());
    s.append("\n\n  Group size:\n    Median: ");
    s.append(decimal_text(middle).as_str());
    s.append("\n    Average: ");
    s.append(average_text(total, groups).as_str());
    s.append("\n    Min: ");
    s.append(decimal_text(least).as_str());
    s.append("\n    Max: ");
    s.append(decimal_text(most).as_str());
    s.append("\n");
    assert(s@ =~= statistics_text(all));
    s
}

} // verus!
