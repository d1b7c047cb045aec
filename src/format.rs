use vstd::prelude::*;

verus! {

/// Width to which `@handle` is padded with spaces, or cut, in a leaderboard line.
pub const HANDLE_WIDTH: usize = 20;

/// A ranked entry: a participant's handle and score.
pub struct Participant {
    pub handle: String,
    pub score: i32,
}

/// The mathematical form of a participant: handle characters and score.
pub open spec fn entry_of(p: Participant) -> (Seq<char>, int) {
    (p.handle@, p.score as int)
}

/// The entries of a sequence of participants.
pub open spec fn entries(s: Seq<Participant>) -> Seq<(Seq<char>, int)> {
    s.map_values(|p: Participant| entry_of(p))
}

pub open spec fn digit_char(d: nat) -> char {
    if d == 0 { '0' }
    else if d == 1 { '1' }
    else if d == 2 { '2' }
    else if d == 3 { '3' }
    else if d == 4 { '4' }
    else if d == 5 { '5' }
    else if d == 6 { '6' }
    else if d == 7 { '7' }
    else if d == 8 { '8' }
    else { '9' }
}

/// Decimal digits of a natural number, most significant first.
pub open spec fn decimal_nat(n: nat) -> Seq<char>
    decreases n,
{
    if n < 10 {
        seq![digit_char(n)]
    } else {
        decimal_nat(n / 10).push(digit_char(n % 10))
    }
}

/// Decimal form of an integer, with a leading `-` when negative.
pub open spec fn decimal(n: int) -> Seq<char> {
    if n < 0 {
        seq!['-'] + decimal_nat((-n) as nat)
    } else {
        decimal_nat(n as nat)
    }
}

/// `s` brought to exactly `width` characters: followed by spaces when shorter,
/// cut after its first `width` characters when longer.
pub open spec fn fit_width(s: Seq<char>, width: nat) -> Seq<char> {
    if s.len() >= width {
        s.take(width as int)
    } else {
        s + Seq::new((width - s.len()) as nat, |i: int| ' ')
    }
}

/// The line for rank `rank`: `"{rank}. {@handle fitted to the width} {score}"`.
pub open spec fn entry_line(rank: nat, e: (Seq<char>, int)) -> Seq<char> {
    decimal(rank as int) + seq!['.', ' '] + fit_width(seq!['@'] + e.0, HANDLE_WIDTH as nat)
        + seq![' '] + decimal(e.1)
}

pub open spec fn header() -> Seq<char> {
    seq!['L', 'e', 'a', 'd', 'e', 'r', 'b', 'o', 'a', 'r', 'd', ' ', '🏆']
}

/// The lines of the first `n` entries of `s`, each preceded by a newline.
pub open spec fn body(s: Seq<(Seq<char>, int)>, n: nat) -> Seq<char>
    decreases n,
{
    if n == 0 || n > s.len() {
        Seq::empty()
    } else {
        body(s, (n - 1) as nat) + seq!['\n'] + entry_line(n, s[n - 1])
    }
}

/// The header line followed by one line per entry, ranked in the given order.
pub open spec fn render(s: Seq<(Seq<char>, int)>) -> Seq<char> {
    header() + body(s, s.len())
}

fn digit_str(d: u64) -> (r: &'static str)
    requires
        d < 10,
    ensures
        r@ == seq![digit_char(d as nat)],
{
    proof {
        reveal_strlit("0");
        reveal_strlit("1");
        reveal_strlit("2");
        reveal_strlit("3");
        reveal_strlit("4");
        reveal_strlit("5");
        reveal_strlit("6");
        reveal_strlit("7");
        reveal_strlit("8");
        reveal_strlit("9");
    }
    if d == 0 { "0" }
    else if d == 1 { "1" }
    else if d == 2 { "2" }
    else if d == 3 { "3" }
    else if d == 4 { "4" }
    else if d == 5 { "5" }
    else if d == 6 { "6" }
    else if d == 7 { "7" }
    else if d == 8 { "8" }
    else { "9" }
}

/// Appends the decimal digits of `n` to `out`.
pub fn push_decimal(out: &mut String, n: u64)
    ensures
        final(out)@ == old(out)@ + decimal_nat(n as nat),
    decreases n,
{
    if n >= 10 {
        push_decimal(out, n / 10);
    }
    out.append(digit_str(n % 10));
    proof {
        if n >= 10 {
            assert(decimal_nat(n as nat) == decimal_nat((n / 10) as nat).push(digit_char((n % 10) as nat)));
        }
    }
    assert(final(out)@ =~= old(out)@ + decimal_nat(n as nat));
}

/// Appends the decimal form of `n` to `out`.
pub fn push_score(out: &mut String, n: i32)
    ensures
        final(out)@ == old(out)@ + decimal(n as int),
{
    if n < 0 {
        proof {
            reveal_strlit("-");
        }
        out.append("-");
        let m: i64 = n as i64;
        push_decimal(out, (-m) as u64);
        assert(final(out)@ =~= old(out)@ + decimal(n as int));
    } else {
        push_decimal(out, n as u64);
    }
}

/// Appends the line of participant `p` at rank `rank` to `out`.
pub fn push_entry_line(out: &mut String, rank: u64, p: &Participant)
    ensures
        final(out)@ == old(out)@ + entry_line(rank as nat, entry_of(*p)),
{
    proof {
        reveal_strlit(". ");
        reveal_strlit("@");
        reveal_strlit(" ");
    }
    let ghost start = out@;
    push_decimal(out, rank);
    out.append(". ");
    out.append("@");
    let handle: &str = p.handle.as_str();
    let len: usize = handle.unicode_len();
    let ghost tag = seq!['@'] + p.handle@;
    let ghost head = start + decimal(rank as int) + seq!['.', ' '];
    assert(out@ =~= head + seq!['@']);
    if len >= HANDLE_WIDTH - 1 {
        let cut: &str = handle.substring_char(0, HANDLE_WIDTH - 1);
        out.append(cut);
        assert(out@ =~= head + fit_width(tag, HANDLE_WIDTH as nat));
    } else {
        out.append(handle);
        let ghost before_pad = out@;
        assert(before_pad =~= head + tag);
        let mut k: usize = len;
        while k < HANDLE_WIDTH - 1
            invariant
                len == p.handle@.len(),
                len <= k <= HANDLE_WIDTH - 1,
                out@ =~= before_pad + Seq::new((k - len) as nat, |i: int| ' '),
            decreases HANDLE_WIDTH - k,
        {
            let ghost prev = out@;
            proof {
                reveal_strlit(" ");
            }
            out.append(" ");
            k = k + 1;
            assert(out@ =~= prev + seq![' ']);
            assert(out@ =~= before_pad + Seq::new((k - len) as nat, |i: int| ' '));
        }
        assert(out@ =~= head + fit_width(tag, HANDLE_WIDTH as nat));
    }
    out.append(" ");
    push_score(out, p.score);
    assert(final(out)@ =~= old(out)@ + entry_line(rank as nat, entry_of(*p)));
}

/// The rendered leaderboard for `recs`, ranked in the order given.
pub fn render_entries(recs: &Vec<Participant>) -> (r: String)
    ensures
        r@ == render(entries(recs@)),
{
    proof {
        reveal_strlit("Leaderboard 🏆");
        reveal_strlit("\n");
    }
    let mut out = String::from_str("Leaderboard 🏆");
    let ghost es = entries(recs@);
    assert(out@ =~= header() + body(es, 0));
    let mut i: usize = 0;
    while i < recs.len()
        invariant
            i <= recs@.len(),
            es == entries(recs@),
            out@ == header() + body(es, i as nat),
        decreases recs@.len() - i,
    {
        let ghost prev = out@;
        proof {
            reveal_strlit("\n");
        }
        out.append("\n");
        push_entry_line(&mut out, (i + 1) as u64, &recs[i]);
        assert(es[i as int] == entry_of(recs@[i as int]));
        assert(out@ =~= prev + seq!['\n'] + entry_line((i + 1) as nat, es[i as int]));
        i = i + 1;
        assert(out@ =~= header() + body(es, i as nat));
    }
    out
}

/// `e` inserted after every leading entry whose score is at least its own.
pub open spec fn insert_desc(s: Seq<(Seq<char>, int)>, e: (Seq<char>, int)) -> Seq<(Seq<char>, int)>
    decreases s.len(),
{
    if s.len() == 0 {
        seq![e]
    } else if s[0].1 < e.1 {
        seq![e] + s
    } else {
        seq![s[0]] + insert_desc(s.drop_first(), e)
    }
}

/// Stable insertion sort by descending score.
pub open spec fn sort_desc(s: Seq<(Seq<char>, int)>) -> Seq<(Seq<char>, int)>
    decreases s.len(),
{
    if s.len() == 0 {
        s
    } else {
        insert_desc(sort_desc(s.drop_last()), s.last())
    }
}

pub open spec fn insert_pos(s: Seq<(Seq<char>, int)>, e: (Seq<char>, int)) -> nat
    decreases s.len(),
{
    if s.len() == 0 || s[0].1 < e.1 {
        0
    } else {
        1 + insert_pos(s.drop_first(), e)
    }
}

pub open spec fn sorted_desc(s: Seq<(Seq<char>, int)>) -> bool {
    forall|i: int, j: int| 0 <= i < j < s.len() ==> s[i].1 >= s[j].1
}

proof fn lemma_insert_desc_shape(s: Seq<(Seq<char>, int)>, e: (Seq<char>, int))
    ensures
        insert_pos(s, e) <= s.len(),
        insert_desc(s, e) == s.insert(insert_pos(s, e) as int, e),
        forall|k: int| 0 <= k < insert_pos(s, e) ==> s[k].1 >= e.1,
        insert_pos(s, e) < s.len() ==> s[insert_pos(s, e) as int].1 < e.1,
    decreases s.len(),
{
    if s.len() == 0 {
        assert(seq![e] =~= s.insert(0, e));
    } else if s[0].1 < e.1 {
        assert(seq![e] + s =~= s.insert(0, e));
    } else {
        let t = s.drop_first();
        lemma_insert_desc_shape(t, e);
        assert(seq![s[0]] + t.insert(insert_pos(t, e) as int, e) =~= s.insert(insert_pos(s, e) as int, e));
        assert forall|k: int| 0 <= k < insert_pos(s, e) implies s[k].1 >= e.1 by {
            if k > 0 {
                assert(s[k] == t[k - 1]);
            }
        }
    }
}

/// Inserting by descending score keeps a sorted sequence sorted and adds exactly `e`.
proof fn lemma_insert_desc(s: Seq<(Seq<char>, int)>, e: (Seq<char>, int))
    requires
        sorted_desc(s),
    ensures
        sorted_desc(insert_desc(s, e)),
        insert_desc(s, e).to_multiset() == s.to_multiset().insert(e),
{
    broadcast use vstd::seq_lib::to_multiset_insert;

    lemma_insert_desc_shape(s, e);
    let j = insert_pos(s, e) as int;
    let t = s.insert(j, e);
    assert forall|a: int, b: int| 0 <= a < b < t.len() implies t[a].1 >= t[b].1 by {
        if b < j {
            assert(t[a] == s[a] && t[b] == s[b]);
        } else if b == j {
            assert(t[a] == s[a]);
        } else if a < j {
            assert(t[a] == s[a] && t[b] == s[b - 1]);
        } else if a == j {
            assert(t[b] == s[b - 1]);
            assert(s[j].1 >= s[b - 1].1);
        } else {
            assert(t[a] == s[a - 1] && t[b] == s[b - 1]);
        }
    }
}

/// Ranking: `sort_desc` puts the entries in descending order of score and keeps
/// every entry, each as often as it occurs.
pub proof fn lemma_sort_desc_ranks(s: Seq<(Seq<char>, int)>)
    ensures
        sorted_desc(sort_desc(s)),
        sort_desc(s).to_multiset() == s.to_multiset(),
    decreases s.len(),
{
    broadcast use vstd::seq_lib::to_multiset_build;

    if s.len() > 0 {
        lemma_sort_desc_ranks(s.drop_last());
        lemma_insert_desc(sort_desc(s.drop_last()), s.last());
        assert(s.drop_last().push(s.last()) =~= s);
    }
}

/// A copy of `p` with the same handle and score.
pub fn copy_participant(p: &Participant) -> (r: Participant)
    ensures
        entry_of(r) == entry_of(*p),
{
    Participant { handle: p.handle.clone(), score: p.score }
}

/// The participants of `recs` in descending order of score; among equal scores,
/// the given order is kept.
pub fn sort_by_score(recs: &Vec<Participant>) -> (r: Vec<Participant>)
    ensures
        entries(r@) == sort_desc(entries(recs@)),
{
    let ghost es = entries(recs@);
    let mut res: Vec<Participant> = Vec::new();
    let mut i: usize = 0;
    assert(es.take(0) =~= Seq::<(Seq<char>, int)>::empty());
    assert(entries(res@) =~= sort_desc(es.take(0)));
    while i < recs.len()
        invariant
            i <= recs@.len(),
            es == entries(recs@),
            entries(res@) == sort_desc(es.take(i as int)),
        decreases recs@.len() - i,
    {
        let p = copy_participant(&recs[i]);
        let ghost cur = entries(res@);
        let ghost e = entry_of(p);
        let mut j: usize = 0;
        while j < res.len() && res[j].score >= p.score
            invariant
                j <= res@.len(),
                cur == entries(res@),
                e == entry_of(p),
                forall|k: int| 0 <= k < j ==> cur[k].1 >= e.1,
            decreases res@.len() - j,
        {
            j = j + 1;
        }
        proof {
            lemma_insert_desc_shape(cur, e);
            let q = insert_pos(cur, e) as int;
            if q < j {
                assert(cur[q].1 >= e.1);
            }
            if j < q {
                assert(cur[j as int].1 >= e.1);
            }
            assert(q == j);
        }
        res.insert(j, p);
        assert(entries(res@) =~= cur.insert(j as int, e));
        assert(es.take((i + 1) as int).drop_last() =~= es.take(i as int));
        assert(es.take((i + 1) as int).last() == es[i as int]);
        assert(es[i as int] == e);
        i = i + 1;
    }
    assert(es.take(i as int) =~= es);
    res
}

/// The leaderboard text for `recs`: a header line, then one line per participant
/// in descending order of score (`"{rank}. {@handle fitted to 20} {score}"`).
pub fn format_leaderboard(recs: &Vec<Participant>) -> (r: String)
    ensures
        r@ == render(sort_desc(entries(recs@))),
{
    let sorted = sort_by_score(recs);
    render_entries(&sorted)
}

/// No two different entries share a score.
pub open spec fn distinct_scores(s: Seq<(Seq<char>, int)>) -> bool {
    forall|i: int, j: int| 0 <= i < s.len() && 0 <= j < s.len() && s[i].1 == s[j].1 ==> s[i] == s[j]
}

proof fn lemma_sorted_unique(a: Seq<(Seq<char>, int)>, b: Seq<(Seq<char>, int)>)
    requires
        sorted_desc(a),
        sorted_desc(b),
        a.to_multiset() == b.to_multiset(),
        distinct_scores(a),
    ensures
        a == b,
    decreases a.len(),
{
    broadcast use vstd::seq_lib::to_multiset_contains, vstd::seq_lib::to_multiset_len, vstd::seq_lib::to_multiset_remove;

    assert(a.to_multiset().len() == a.len());
    assert(b.to_multiset().len() == b.len());
    if a.len() == 0 {
        assert(b.len() == 0);
        assert(a =~= b);
    } else {
        assert(b.len() == a.len());
        assert(a.to_multiset().count(a[0]) > 0);
        assert(b.contains(a[0]));
        let j = choose|j: int| 0 <= j < b.len() && b[j] == a[0];
        assert(b.to_multiset().count(b[0]) > 0);
        assert(a.contains(b[0]));
        let k = choose|k: int| 0 <= k < a.len() && a[k] == b[0];
        assert(a[0].1 >= a[k].1);
        assert(b[0].1 >= b[j].1);
        assert(a[0] == a[k]);
        let a1 = a.drop_first();
        let b1 = b.drop_first();
        assert(a.remove(0) =~= a1);
        assert(b.remove(0) =~= b1);
        assert(a1.to_multiset() == b1.to_multiset());
        assert(distinct_scores(a1)) by {
            assert forall|i: int, l: int| 0 <= i < a1.len() && 0 <= l < a1.len() && a1[i].1 == a1[l].1
                implies a1[i] == a1[l] by {
                assert(a1[i] == a[i + 1] && a1[l] == a[l + 1]);
            }
        }
        lemma_sorted_unique(a1, b1);
        assert(a[0] == b[0]);
        assert forall|i: int| 0 <= i < a.len() implies a[i] == b[i] by {
            if i > 0 {
                assert(a[i] == a1[i - 1] && b[i] == b1[i - 1]);
            }
        }
        assert(a =~= b);
    }
}

/// Where no two different entries share a score, the ranking does not depend on
/// the order of the input: inputs holding the same entries rank alike.
pub proof fn lemma_ranking_ignores_input_order(s1: Seq<(Seq<char>, int)>, s2: Seq<(Seq<char>, int)>)
    requires
        s1.to_multiset() == s2.to_multiset(),
        distinct_scores(s1),
    ensures
        sort_desc(s1) == sort_desc(s2),
        render(sort_desc(s1)) == render(sort_desc(s2)),
{
    broadcast use vstd::seq_lib::to_multiset_contains;

    lemma_sort_desc_ranks(s1);
    lemma_sort_desc_ranks(s2);
    let t = sort_desc(s1);
    assert(distinct_scores(t)) by {
        assert forall|i: int, j: int| 0 <= i < t.len() && 0 <= j < t.len() && t[i].1 == t[j].1
            implies t[i] == t[j] by {
            assert(t.to_multiset().count(t[i]) > 0);
            assert(t.to_multiset().count(t[j]) > 0);
            assert(s1.contains(t[i]));
            assert(s1.contains(t[j]));
        }
    }
    lemma_sorted_unique(t, sort_desc(s2));
}

} // verus!
