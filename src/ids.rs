use vstd::prelude::*;

verus! {

/// The character of one decimal digit.
pub open spec fn digit_char(d: nat) -> char {
    if d == 0 {
        '0'
    } else if d == 1 {
        '1'
    } else if d == 2 {
        '2'
    } else if d == 3 {
        '3'
    } else if d == 4 {
        '4'
    } else if d == 5 {
        '5'
    } else if d == 6 {
        '6'
    } else if d == 7 {
        '7'
    } else if d == 8 {
        '8'
    } else {
        '9'
    }
}

/// The decimal digits of `n`, most significant first, without leading zeros.
pub open spec fn decimal(n: nat) -> Seq<char>
    decreases n,
{
    if n < 10 {
        seq![digit_char(n)]
    } else {
        decimal(n / 10).push(digit_char(n % 10))
    }
}

/// The identifier of the tab numbered `n`: `tab-` followed by `n` in decimal.
pub open spec fn tab_name(n: nat) -> Seq<char> {
    seq!['t', 'a', 'b', '-'] + decimal(n)
}

proof fn lemma_decimal_len(n: nat)
    ensures
        decimal(n).len() >= 1,
        n >= 10 ==> decimal(n).len() >= 2,
    decreases n,
{
    if n >= 10 {
        lemma_decimal_len(n / 10);
    }
}

/// Distinct numbers have distinct decimal representations.
pub proof fn lemma_decimal_injective(a: nat, b: nat)
    requires
        decimal(a) == decimal(b),
    ensures
        a == b,
    decreases a,
{
    lemma_decimal_len(a);
    lemma_decimal_len(b);
    if a < 10 && b < 10 {
        assert(decimal(a)[0] == digit_char(a));
        assert(decimal(b)[0] == digit_char(b));
    } else if a >= 10 && b >= 10 {
        let da = decimal(a);
        let db = decimal(b);
        assert(da.last() == digit_char(a % 10));
        assert(db.last() == digit_char(b % 10));
        assert(da.drop_last() =~= decimal(a / 10));
        assert(db.drop_last() =~= decimal(b / 10));
        lemma_decimal_injective(a / 10, b / 10);
    } else {
        assert(decimal(a).len() != decimal(b).len());
    }
}

/// Tabs with different numbers have different identifiers; in particular
/// identifiers handed out from a counter that only grows are pairwise distinct.
pub proof fn lemma_issued_ids_distinct(a: nat, b: nat)
    requires
        a != b,
    ensures
        tab_name(a) != tab_name(b),
{
    if tab_name(a) == tab_name(b) {
        assert(tab_name(a).subrange(4, tab_name(a).len() as int) =~= decimal(a));
        assert(tab_name(b).subrange(4, tab_name(b).len() as int) =~= decimal(b));
        lemma_decimal_injective(a, b);
    }
}

/// Whether `s` is the identifier of some tab number.
pub open spec fn is_tab_name(s: Seq<char>) -> bool {
    exists|k: nat| tab_name(k) == s
}

/// The number of the tab whose identifier is `s`.
pub open spec fn tab_number(s: Seq<char>) -> nat {
    choose|k: nat| tab_name(k) == s
}

/// The number read back from a tab's identifier is the tab's number.
pub proof fn lemma_tab_number(k: nat)
    ensures
        is_tab_name(tab_name(k)),
        tab_number(tab_name(k)) == k,
{
    assert(tab_name(k) == tab_name(k));
    let j = tab_number(tab_name(k));
    if j != k {
        lemma_issued_ids_distinct(j, k);
    }
}

/// `s` holds tab identifiers in strictly ascending order of tab number.
pub open spec fn sorted_tab_ids(s: Seq<Seq<char>>) -> bool {
    &&& forall|i: int| 0 <= i < s.len() ==> is_tab_name(#[trigger] s[i])
    &&& forall|i: int, j: int|
        0 <= i < j < s.len() ==> tab_number(#[trigger] s[i]) < tab_number(#[trigger] s[j])
}

/// Whether the texts in `s` are pairwise distinct.
pub open spec fn distinct_texts(s: Seq<Seq<char>>) -> bool {
    forall|i: int, j: int| 0 <= i < s.len() && 0 <= j < s.len() && i != j ==> s[i] != s[j]
}

/// Identifiers in ascending order of tab number are pairwise distinct.
pub proof fn lemma_sorted_distinct(s: Seq<Seq<char>>)
    requires
        sorted_tab_ids(s),
    ensures
        distinct_texts(s),
{
    assert forall|i: int, j: int| 0 <= i < s.len() && 0 <= j < s.len() && i != j implies s[i]
        != s[j] by {
        if i < j {
            assert(tab_number(s[i]) < tab_number(s[j]));
        } else {
            assert(tab_number(s[j]) < tab_number(s[i]));
        }
    }
}

pub(crate) proof fn lemma_sorted_push(s: Seq<Seq<char>>, k: nat)
    requires
        sorted_tab_ids(s),
        forall|i: int| 0 <= i < s.len() ==> tab_number(#[trigger] s[i]) < k,
    ensures
        sorted_tab_ids(s.push(tab_name(k))),
{
    lemma_tab_number(k);
    let t = s.push(tab_name(k));
    assert forall|i: int| 0 <= i < t.len() implies is_tab_name(#[trigger] t[i]) by {
        if i < s.len() {
            assert(t[i] == s[i]);
        }
    }
    assert forall|i: int, j: int| 0 <= i < j < t.len() implies tab_number(#[trigger] t[i])
        < tab_number(#[trigger] t[j]) by {
        assert(t[i] == s[i]);
        if j < s.len() {
            assert(t[j] == s[j]);
        }
    }
}

pub(crate) proof fn lemma_sorted_remove(s: Seq<Seq<char>>, x: int)
    requires
        sorted_tab_ids(s),
        0 <= x < s.len(),
    ensures
        sorted_tab_ids(s.remove(x)),
{
    let t = s.remove(x);
    assert forall|i: int| 0 <= i < t.len() implies is_tab_name(#[trigger] t[i]) by {
        let oi = if i < x { i } else { i + 1 };
        assert(t[i] == s[oi]);
    }
    assert forall|i: int, j: int| 0 <= i < j < t.len() implies tab_number(#[trigger] t[i])
        < tab_number(#[trigger] t[j]) by {
        let oi = if i < x { i } else { i + 1 };
        let oj = if j < x { j } else { j + 1 };
        assert(t[i] == s[oi]);
        assert(t[j] == s[oj]);
    }
}

/// Identifiers issued one after another, from a counter that only grows
/// (closing a tab never moves it back), are pairwise distinct and carry
/// strictly increasing numbers.
pub proof fn lemma_issued_in_order(nums: Seq<nat>, issued: Seq<Seq<char>>)
    requires
        issued.len() == nums.len(),
        forall|i: int| 0 <= i < issued.len() ==> #[trigger] issued[i] == tab_name(nums[i]),
        forall|i: int, j: int| 0 <= i < j < nums.len() ==> #[trigger] nums[i] < #[trigger] nums[j],
    ensures
        sorted_tab_ids(issued),
        distinct_texts(issued),
        forall|i: int| 0 <= i < issued.len() ==> tab_number(#[trigger] issued[i]) == nums[i],
{
    assert forall|i: int| 0 <= i < issued.len() implies tab_number(#[trigger] issued[i])
        == nums[i] && is_tab_name(issued[i]) by {
        lemma_tab_number(nums[i]);
    }
    assert forall|i: int, j: int| 0 <= i < j < issued.len() implies tab_number(
        #[trigger] issued[i],
    ) < tab_number(#[trigger] issued[j]) by {
        assert(nums[i] < nums[j]);
    }
    lemma_sorted_distinct(issued);
}

fn digit_text(d: u32) -> (r: &'static str)
    requires
        d < 10,
    ensures
        r@ == seq![digit_char(d as nat)],
{
    proof {
        reveal_strlit("0");
        reveal_strlit("1");
        reveal_strlit("2");
        reveal_strlit("3");
        reveal_strlit("4");
        reveal_strlit("5");
        reveal_strlit("6");
        reveal_strlit("7");
        reveal_strlit("8");
        reveal_strlit("9");
    }
    let r = if d == 0 {
        "0"
    } else if d == 1 {
        "1"
    } else if d == 2 {
        "2"
    } else if d == 3 {
        "3"
    } else if d == 4 {
        "4"
    } else if d == 5 {
        "5"
    } else if d == 6 {
        "6"
    } else if d == 7 {
        "7"
    } else if d == 8 {
        "8"
    } else {
        "9"
    };
    assert(r@ =~= seq![digit_char(d as nat)]);
    r
}

/// Appends the decimal digits of `n` to `s`.
fn push_decimal(s: &mut String, n: u32)
    ensures
        final(s)@ == old(s)@ + decimal(n as nat),
    decreases n,
{
    if n >= 10 {
        push_decimal(s, n / 10);
    }
    s.append(digit_text(n % 10));
    assert(final(s)@ =~= old(s)@ + decimal(n as nat));
}

/// The identifier of the tab numbered `n`.
pub(crate) fn tab_label(n: u32) -> (r: String)
    ensures
        r@ == tab_name(n as nat),
{
    proof {
        reveal_strlit("tab-");
    }
    let mut s: String = "tab-".to_owned();
    assert(s@ =~= seq!['t', 'a', 'b', '-']);
    push_decimal(&mut s, n);
    s
}

/// Whether `a` and `b` hold the same text.
pub(crate) fn same_text(a: &String, b: &str) -> (r: bool)
    ensures
        r == (a@ == b@),
{
    let owned: String = b.to_owned();
    *a == owned
}

} // verus!
