//! The texts of the bot's replies.
use vstd::prelude::*;
use crate::bridge::{datetime_from_timestamp, day_month_year_pattern, day_month_year_text, format_date};
use crate::calendar::{datetime_at, lemma_datetime_at, timestamp_in_range};
use crate::text::{i32_text, int_text, joined, lemma_joined_push};
use vstd::std_specs::btree::{increasing_seq, spec_keys_iter};
use vstd::std_specs::cmp::OrdSpec;
use vstd::std_specs::iter::IteratorSpec;
use crate::utils::types::MembersByMonth;

verus! {

/// A sequence of keys in strictly increasing order.
pub open spec fn is_ascending(ks: Seq<i64>) -> bool {
    forall|i: int, j: int| 0 <= i < j < ks.len() ==> ks[i] < ks[j]
}

/// The keys of a finite set in increasing order.
pub open spec fn ascending_keys(keys: Set<i64>) -> Seq<i64> {
    choose|ks: Seq<i64>| is_ascending(ks) && ks.to_set() == keys
}

/// Two increasing sequences with the same elements are the same sequence.
pub proof fn lemma_ascending_unique(a: Seq<i64>, b: Seq<i64>)
    requires
        is_ascending(a),
        is_ascending(b),
        a.to_set() == b.to_set(),
    ensures
        a == b,
    decreases a.len(),
{
    if a.len() == 0 {
        if b.len() > 0 {
            assert(b.to_set().contains(b[0]));
        }
        assert(a =~= b);
    } else {
        assert(a.to_set().contains(a[0]));
        assert(b.contains(a[0]));
        let j = choose|j: int| 0 <= j < b.len() && b[j] == a[0];
        assert(b.contains(b[0]));
        assert(b.to_set().contains(b[0]));
        assert(a.to_set().contains(b[0]));
        let i = choose|i: int| 0 <= i < a.len() && a[i] == b[0];
        assert(a[0] == b[0]);
        let ta = a.drop_first();
        let tb = b.drop_first();
        assert forall|x: i64| ta.to_set().contains(x) <==> tb.to_set().contains(x) by {
            if ta.contains(x) {
                let p = choose|p: int| 0 <= p < ta.len() && ta[p] == x;
                assert(a[p + 1] == x);
                assert(a.contains(x));
                assert(a.to_set().contains(x));
                assert(b.to_set().contains(x));
                let q = choose|q: int| 0 <= q < b.len() && b[q] == x;
                assert(q > 0);
                assert(tb[q - 1] == x);
            }
            if tb.contains(x) {
                let p = choose|p: int| 0 <= p < tb.len() && tb[p] == x;
                assert(b[p + 1] == x);
                assert(b.contains(x));
                assert(b.to_set().contains(x));
                assert(a.to_set().contains(x));
                let q = choose|q: int| 0 <= q < a.len() && a[q] == x;
                assert(q > 0);
                assert(ta[q - 1] == x);
            }
        }
        assert(ta.to_set() =~= tb.to_set());
        lemma_ascending_unique(ta, tb);
        assert forall|k: int| 0 <= k < a.len() implies a[k] == b[k] by {
            if k > 0 {
                assert(a[k] == ta[k - 1]);
                assert(b[k] == tb[k - 1]);
            }
        }
        assert(a =~= b);
    }
}

proof fn lemma_increasing_pair<K: Ord>(s: Seq<K>, i: int, j: int)
    requires
        vstd::laws_cmp::obeys_cmp::<K>(),
        increasing_seq(s),
        0 <= i < j < s.len(),
    ensures
        s[i].cmp_spec(&s[j]) is Less,
{
    vstd::std_specs::btree::axiom_increasing_seq_meaning::<K>(s);
}

/// The keys that a `BTreeMap` iterator yields are in increasing order.
proof fn lemma_keys_ascending(rem: Seq<&i64>)
    requires
        increasing_seq(rem),
    ensures
        forall|i: int, j: int| 0 <= i < j < rem.len() ==> *rem[i] < *rem[j],
{
    assert(vstd::laws_cmp::obeys_cmp::<i64>());
    assert(vstd::laws_cmp::obeys_cmp::<&i64>());
    assert forall|i: int, j: int| 0 <= i < j < rem.len() implies *rem[i] < *rem[j] by {
        lemma_increasing_pair::<&i64>(rem, i, j);
    }
}

/// The keys of the grouping, in increasing order.
fn month_keys(m: &MembersByMonth) -> (r: Vec<i64>)
    ensures
        is_ascending(r@),
        r@.to_set() == m@.dom(),
{
    let mut r: Vec<i64> = Vec::new();
    let ghost all = spec_keys_iter(m).remaining().unref();
    for k in it: m.keys()
        invariant
            it.seq() == spec_keys_iter(m).remaining(),
            all == spec_keys_iter(m).remaining().unref(),
            r@ == all.take(it.index() as int),
    {
        r.push(*k);
        assert(r@ =~= all.take(it.index() + 1));
    }
    assert(r@ =~= all);
    proof {
        lemma_keys_ascending(spec_keys_iter(m).remaining());
    }
    r
}

/// How a member is mentioned in Slack.
pub open spec fn tag_text(id: Seq<char>) -> Seq<char> {
    seq!['<', '@'] + id + seq!['>']
}

/// One line of a member list.
pub open spec fn member_line(id: Seq<char>) -> Seq<char> {
    seq!['-', ' '] + tag_text(id)
}

/// The member list: one line per member, in order.
pub open spec fn member_list_text(ids: Seq<String>) -> Seq<char> {
    joined(ids.map_values(|u: String| member_line(u@)), seq!['\n'])
}

/// The Spanish name of a month (1 to 12).
pub open spec fn spanish_month_name(m: int) -> Seq<char> {
    if m == 1 {
        "Enero"@
    } else if m == 2 {
        "Febrero"@
    } else if m == 3 {
        "Marzo"@
    } else if m == 4 {
        "Abril"@
    } else if m == 5 {
        "Mayo"@
    } else if m == 6 {
        "Junio"@
    } else if m == 7 {
        "Julio"@
    } else if m == 8 {
        "Agosto"@
    } else if m == 9 {
        "Septiembre"@
    } else if m == 10 {
        "Octubre"@
    } else if m == 11 {
        "Noviembre"@
    } else {
        "Diciembre"@
    }
}

/// Month name and year of the (UTC) date-time of a timestamp, as in "Junio 2030".
pub open spec fn month_label(ts: int) -> Seq<char> {
    let dt = datetime_at(ts);
    spanish_month_name(dt.date.month as int) + seq![' '] + int_text(dt.date.year as int)
}

/// A month's heading followed by its members.
pub open spec fn month_section(ts: int, ids: Seq<String>) -> Seq<char> {
    month_label(ts) + seq![':', '\n'] + member_list_text(ids)
}

/// The sections of all months, latest month first, separated by blank lines.
pub open spec fn member_list_by_month_text(m: Map<i64, Seq<String>>) -> Seq<char> {
    joined(
        ascending_keys(m.dom()).reverse().map_values(|k: i64| month_section(k as int, m[k])),
        seq!['\n', '\n'],
    )
}

/// The groups of a grouping, each as the sequence of its ids.
pub open spec fn group_views(m: Map<i64, Vec<String>>) -> Map<i64, Seq<String>> {
    m.map_values(|v: Vec<String>| v@)
}

/// All months of a grouping have timestamps in the supported range.
pub open spec fn months_in_range(months: Set<i64>) -> bool {
    forall|k: i64| #[trigger] months.contains(k) ==> timestamp_in_range(k as int)
}

/// The reply to a request for the members who joined between two timestamps.
pub open spec fn new_members_text(from_ts: int, to_ts: int, m: Map<i64, Seq<String>>) -> Seq<char> {
    if timestamp_in_range(from_ts) && timestamp_in_range(to_ts) {
        "Los que entraron desde el "@ + day_month_year_text(datetime_at(from_ts).date, '/')
            + " hasta el "@ + day_month_year_text(datetime_at(to_ts).date, '/') + " son: \n"@
            + member_list_by_month_text(m)
    } else {
        "Invalid 'from' or 'to' timestamps"@
    }
}

/// Mentions a member: `<@id>`.
pub fn tag(id: &str) -> (r: String)
    ensures
        r@ == tag_text(id@),
{
    let mut s = String::new();
    s.append("<@");
    s.append(id);
    s.append(">");
    proof {
        reveal_strlit("<@");
        reveal_strlit(">");
    }
    assert(s@ =~= tag_text(id@));
    s
}

/// One line per member, `- <@id>`, joined by newlines.
pub fn member_list(member_ids: Vec<String>) -> (r: String)
    ensures
        r@ == member_list_text(member_ids@),
{
    let ghost lines = member_ids@.map_values(|u: String| member_line(u@));
    let mut out = String::new();
    let mut i: usize = 0;
    assert(lines.take(0) =~= Seq::<Seq<char>>::empty());
    while i < member_ids.len()
        invariant
            i <= member_ids@.len(),
            lines == member_ids@.map_values(|u: String| member_line(u@)),
            out@ == joined(lines.take(i as int), seq!['\n']),
        decreases member_ids@.len() - i,
    {
        let ghost before = out@;
        if i > 0 {
            out.append("\n");
        }
        out.append("- ");
        let t = tag(member_ids[i].as_str());
        out.append(t.as_str());
        proof {
            reveal_strlit("\n");
            reveal_strlit("- ");
            lemma_joined_push(lines.take(i as int), seq!['\n'], lines[i as int]);
            assert(lines.take(i + 1) =~= lines.take(i as int).push(lines[i as int]));
        }
        assert(out@ =~= joined(lines.take(i + 1), seq!['\n']));
        i += 1;
    }
    assert(lines.take(member_ids@.len() as int) =~= lines);
    out
}

fn spanish_month(m: u32) -> (r: &'static str)
    ensures
        r@ == spanish_month_name(m as int),
{
    if m == 1 {
        "Enero"
    } else if m == 2 {
        "Febrero"
    } else if m == 3 {
        "Marzo"
    } else if m == 4 {
        "Abril"
    } else if m == 5 {
        "Mayo"
    } else if m == 6 {
        "Junio"
    } else if m == 7 {
        "Julio"
    } else if m == 8 {
        "Agosto"
    } else if m == 9 {
        "Septiembre"
    } else if m == 10 {
        "Octubre"
    } else if m == 11 {
        "Noviembre"
    } else {
        "Diciembre"
    }
}

fn month_heading(ts: i64) -> (r: String)
    requires
        timestamp_in_range(ts as int),
    ensures
        r@ == month_label(ts as int),
{
    let dt = datetime_from_timestamp(ts);
    assert(dt is Some);
    let dt = dt.unwrap();
    proof {
        lemma_datetime_at(dt);
    }
    let mut s = String::new();
    s.append(spanish_month(dt.date.month));
    s.append(" ");
    let y = i32_text(dt.date.year);
    s.append(y.as_str());
    proof {
        reveal_strlit(" ");
    }
    assert(s@ =~= month_label(ts as int));
    s
}

/// Each month as a heading ("Junio 2030:") followed by its member list, latest
/// month first, months separated by a blank line.
pub fn member_list_by_month(members_by_month: MembersByMonth) -> (r: String)
    requires
        months_in_range(members_by_month@.dom()),
    ensures
        r@ == member_list_by_month_text(group_views(members_by_month@)),
{
    let ghost m0 = members_by_month@;
    let mut m = members_by_month;
    let keys = month_keys(&m);
    proof {
        let ks = ascending_keys(m0.dom());
        assert(is_ascending(keys@) && keys@.to_set() == m0.dom());
        assert(is_ascending(ks) && ks.to_set() == m0.dom());
        lemma_ascending_unique(keys@, ks);
    }
    let ghost sections = ascending_keys(m0.dom()).reverse().map_values(
        |k: i64| month_section(k as int, group_views(m0)[k]),
    );
    assert(group_views(m0).dom() =~= m0.dom());
    let n = keys.len();
    let mut out = String::new();
    let mut i: usize = 0;
    assert(sections.take(0) =~= Seq::<Seq<char>>::empty());
    while i < n
        invariant
            n == keys@.len(),
            i <= n,
            keys@ == ascending_keys(m0.dom()),
            is_ascending(keys@),
            keys@.to_set() == m0.dom(),
            months_in_range(m0.dom()),
            group_views(m0).dom() == m0.dom(),
            sections == ascending_keys(m0.dom()).reverse().map_values(
                |k: i64| month_section(k as int, group_views(m0)[k]),
            ),
            forall|j: int| 0 <= j < n - i ==> #[trigger] m@.contains_key(keys@[j]) && m@[keys@[j]] == m0[keys@[j]],
            out@ == joined(sections.take(i as int), seq!['\n', '\n']),
        decreases n - i,
    {
        let idx = n - 1 - i;
        let key = keys[idx];
        assert(m@.contains_key(keys@[idx as int]));
        assert(keys@.contains(key));
        assert(m0.contains_key(key));
        let ghost m_before = m@;
        let group = m.remove(&key);
        assert(group is Some);
        let group = group.unwrap();
        let ghost before = out@;
        if i > 0 {
            out.append("\n\n");
        }
        let heading = month_heading(key);
        out.append(heading.as_str());
        out.append(":\n");
        let list = member_list(group);
        out.append(list.as_str());
        proof {
            reveal_strlit("\n\n");
            reveal_strlit(":\n");
            assert(sections[i as int] == month_section(key as int, group_views(m0)[key]));
            lemma_joined_push(sections.take(i as int), seq!['\n', '\n'], sections[i as int]);
            assert(sections.take(i + 1) =~= sections.take(i as int).push(sections[i as int]));
            assert forall|j: int| 0 <= j < n - (i + 1) implies #[trigger] m@.contains_key(keys@[j]) && m@[keys@[j]] == m0[keys@[j]] by {
                assert(keys@[j] < keys@[idx as int]);
                assert(m_before.contains_key(keys@[j]));
                assert(m@ == m_before.remove(key));
            }
        }
        assert(out@ =~= joined(sections.take(i + 1), seq!['\n', '\n']));
        i += 1;
    }
    assert(sections.take(n as int) =~= sections);
    out
}

/// The reply listing the members who joined between two timestamps, grouped by
/// month; a fixed message when either timestamp is out of range.
pub fn new_members_template(from_ts: i64, to_ts: i64, members_by_month: MembersByMonth) -> (r: String)
    requires
        timestamp_in_range(from_ts as int) && timestamp_in_range(to_ts as int) ==> months_in_range(
            members_by_month@.dom(),
        ),
    ensures
        r@ == new_members_text(from_ts as int, to_ts as int, group_views(members_by_month@)),
{
    let from = datetime_from_timestamp(from_ts);
    let to = datetime_from_timestamp(to_ts);
    match (from, to) {
        (Some(from), Some(to)) => {
            proof {
                lemma_datetime_at(from);
                lemma_datetime_at(to);
                reveal_strlit("%d/%m/%Y");
                assert("%d/%m/%Y"@ =~= day_month_year_pattern('/'));
            }
            let from_text = format_date(from.date, "%d/%m/%Y");
            let to_text = format_date(to.date, "%d/%m/%Y");
            let mut s = String::new();
            s.append("Los que entraron desde el ");
            s.append(from_text.as_str());
            s.append(" hasta el ");
            s.append(to_text.as_str());
            s.append(" son: \n");
            let list = member_list_by_month(members_by_month);
            s.append(list.as_str());
            assert(s@ =~= new_members_text(from_ts as int, to_ts as int, group_views(members_by_month@)));
            s
        },
        _ => "Invalid 'from' or 'to' timestamps".to_string(),
    }
}

/// The Spanish names of the months, January first.
pub open spec fn spanish_month_table() -> Seq<Seq<char>> {
    seq![
        "Enero"@,
        "Febrero"@,
        "Marzo"@,
        "Abril"@,
        "Mayo"@,
        "Junio"@,
        "Julio"@,
        "Agosto"@,
        "Septiembre"@,
        "Octubre"@,
        "Noviembre"@,
        "Diciembre"@,
    ]
}

/// Month `m` (1 to 12) is headed by the `m`-th name of the table, and two
/// different months never share a heading.
pub proof fn lemma_month_names(m1: int, m2: int)
    requires
        1 <= m1 <= 12,
        1 <= m2 <= 12,
    ensures
        spanish_month_name(m1) == spanish_month_table()[m1 - 1],
        m1 != m2 ==> spanish_month_name(m1) != spanish_month_name(m2),
{
    reveal_strlit("Enero");
    reveal_strlit("Febrero");
    reveal_strlit("Marzo");
    reveal_strlit("Abril");
    reveal_strlit("Mayo");
    reveal_strlit("Junio");
    reveal_strlit("Julio");
    reveal_strlit("Agosto");
    reveal_strlit("Septiembre");
    reveal_strlit("Octubre");
    reveal_strlit("Noviembre");
    reveal_strlit("Diciembre");
    let t = spanish_month_table();
    assert forall|i: int, j: int| 0 <= i < 12 && 0 <= j < 12 && i != j implies t[i] != t[j] by {
        if t[i] == t[j] {
            assert(t[i].len() == t[j].len());
            assert(t[i][0] == t[j][0]);
            assert(t[i][2] == t[j][2]);
        }
    }
}

/// The heading of a month group names the month of its key's UTC date by the
/// table, followed by the year; keys of different months of a year get
/// different headings.
pub proof fn lemma_month_label_names_the_month(ts: int)
    requires
        timestamp_in_range(ts),
    ensures
        1 <= datetime_at(ts).date.month <= 12,
        month_label(ts) == spanish_month_table()[datetime_at(ts).date.month - 1] + seq![' '] + int_text(
            datetime_at(ts).date.year as int,
        ),
{
    crate::calendar::lemma_timestamp_in_range_has_datetime(ts);
    let m = datetime_at(ts).date.month as int;
    lemma_month_names(m, m);
}

/// Months are listed latest first: with two months, the later one's section
/// comes first, then a blank line, then the earlier one's.
pub proof fn lemma_latest_month_first(k1: i64, k2: i64, g1: Seq<String>, g2: Seq<String>)
    requires
        k1 < k2,
    ensures
        member_list_by_month_text(map![k1 => g1, k2 => g2]) == month_section(k2 as int, g2) + seq!['\n', '\n']
            + month_section(k1 as int, g1),
{
    let m = map![k1 => g1, k2 => g2];
    let ks = seq![k1, k2];
    assert(ks.to_set() =~= m.dom()) by {
        assert(ks[0] == k1 && ks[1] == k2);
        assert(ks.contains(k1) && ks.contains(k2));
        assert forall|x: i64| ks.contains(x) implies x == k1 || x == k2 by {
            let i = choose|i: int| 0 <= i < ks.len() && ks[i] == x;
        }
    }
    let asc = ascending_keys(m.dom());
    assert(is_ascending(ks) && ks.to_set() == m.dom());
    assert(is_ascending(asc) && asc.to_set() == m.dom());
    lemma_ascending_unique(asc, ks);
    let secs = asc.reverse().map_values(|k: i64| month_section(k as int, m[k]));
    assert(secs =~= seq![month_section(k2 as int, g2), month_section(k1 as int, g1)]);
    let two = seq![month_section(k2 as int, g2), month_section(k1 as int, g1)];
    assert(two.drop_last() =~= seq![month_section(k2 as int, g2)]);
    assert(joined(two.drop_last(), seq!['\n', '\n']) == month_section(k2 as int, g2));
    assert(joined(two, seq!['\n', '\n']) == joined(two.drop_last(), seq!['\n', '\n']) + seq!['\n', '\n']
        + two.last());
}

/// A single month is its section alone.
pub proof fn lemma_single_month(k: i64, g: Seq<String>)
    ensures
        member_list_by_month_text(map![k => g]) == month_section(k as int, g),
{
    let m = map![k => g];
    let ks = seq![k];
    assert(ks.to_set() =~= m.dom()) by {
        assert(ks[0] == k);
        assert(ks.contains(k));
    }
    let asc = ascending_keys(m.dom());
    assert(is_ascending(ks) && ks.to_set() == m.dom());
    assert(is_ascending(asc) && asc.to_set() == m.dom());
    lemma_ascending_unique(asc, ks);
    let secs = asc.reverse().map_values(|x: i64| month_section(x as int, m[x]));
    assert(secs =~= seq![month_section(k as int, g)]);
}

} // verus!
