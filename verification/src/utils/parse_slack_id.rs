//! Reading a user id out of a Slack mention.
use vstd::prelude::*;
use crate::bridge::string_from_chars;
use crate::text::{chars_of, equals_char, lemma_split_by_none, split_by, split_chars, split_on};
use crate::utils::response_templates::tag_text;

verus! {

/// `s` with every leading `<@` removed, as `str::trim_start_matches("<@")` does.
pub open spec fn strip_mention_start(s: Seq<char>) -> Seq<char>
    decreases s.len(),
{
    if s.len() >= 2 && s[0] == '<' && s[1] == '@' {
        strip_mention_start(s.skip(2))
    } else {
        s
    }
}

/// `s` with every trailing `>` removed, as `str::trim_end_matches('>')` does.
pub open spec fn strip_mention_end(s: Seq<char>) -> Seq<char>
    decreases s.len(),
{
    if s.len() > 0 && s.last() == '>' {
        strip_mention_end(s.drop_last())
    } else {
        s
    }
}

/// The id in a mention: the mention markers removed, then everything from the
/// first `|` on dropped.
pub open spec fn slack_id_text(s: Seq<char>) -> Seq<char> {
    split_on(strip_mention_end(strip_mention_start(s)), '|')[0]
}

/// No piece of a split holds a separator.
pub proof fn lemma_split_by_pieces(s: Seq<char>, is_sep: spec_fn(char) -> bool)
    ensures
        split_by(s, is_sep).len() >= 1,
        forall|i: int, j: int|
            0 <= i < split_by(s, is_sep).len() && 0 <= j < split_by(s, is_sep)[i].len()
                ==> !is_sep(#[trigger] split_by(s, is_sep)[i][j]),
    decreases s.len(),
{
    if s.len() > 0 {
        lemma_split_by_pieces(s.drop_last(), is_sep);
        let prev = split_by(s.drop_last(), is_sep);
        if !is_sep(s.last()) {
            let last = prev.last().push(s.last());
            assert forall|j: int| 0 <= j < last.len() implies !is_sep(#[trigger] last[j]) by {
                if j < last.len() - 1 {
                    assert(last[j] == prev[prev.len() - 1][j]);
                }
            }
        }
    }
}

/// The id never contains `|`.
pub proof fn lemma_slack_id_has_no_bar(s: Seq<char>)
    ensures
        forall|j: int| 0 <= j < slack_id_text(s).len() ==> #[trigger] slack_id_text(s)[j] != '|',
{
    let t = strip_mention_end(strip_mention_start(s));
    lemma_split_by_pieces(t, equals_char('|'));
    assert forall|j: int| 0 <= j < slack_id_text(s).len() implies #[trigger] slack_id_text(s)[j] != '|' by {
        assert(slack_id_text(s) == split_by(t, equals_char('|'))[0]);
        assert(!equals_char('|')(split_by(t, equals_char('|'))[0][j]));
    }
}

/// Reading the id back out of the mention of an id gives that id, for ids that
/// hold no `|`, do not end in `>` and do not start with `<@`.
pub proof fn lemma_parse_slack_id_of_tag(id: Seq<char>)
    requires
        forall|i: int| 0 <= i < id.len() ==> #[trigger] id[i] != '|',
        !(id.len() > 0 && id.last() == '>'),
        !(id.len() >= 2 && id[0] == '<' && id[1] == '@'),
    ensures
        slack_id_text(tag_text(id)) == id,
{
    let s = tag_text(id);
    let rest = id.push('>');
    assert(s.skip(2) =~= rest);
    assert(strip_mention_start(s) == strip_mention_start(rest));
    if rest.len() >= 2 && rest[0] == '<' && rest[1] == '@' {
        assert(id.len() >= 2);
        assert(false);
    }
    assert(strip_mention_start(rest) == rest);
    assert(rest.drop_last() =~= id);
    assert(strip_mention_end(rest) == strip_mention_end(id));
    assert(strip_mention_end(id) == id);
    assert forall|i: int| 0 <= i < id.len() implies !equals_char('|')(#[trigger] id[i]) by {
        assert(id[i] != '|');
    }
    lemma_split_by_none(id, equals_char('|'));
}

/// The user id in a mention such as `<@U123|name>`: `U123`.
pub fn parse_slack_id(slack_id: &str) -> (r: String)
    ensures
        r@ == slack_id_text(slack_id@),
{
    let chars = chars_of(slack_id);
    let n = chars.len();
    let mut i: usize = 0;
    assert(chars@.skip(0) =~= chars@);
    while n >= 2 && i <= n - 2 && chars[i] == '<' && chars[i + 1] == '@'
        invariant
            n == chars@.len(),
            i <= n,
            strip_mention_start(chars@) == strip_mention_start(chars@.skip(i as int)),
        decreases n - i,
    {
        assert(chars@.skip(i as int).skip(2) =~= chars@.skip(i + 2));
        i += 2;
    }
    assert(strip_mention_start(chars@) == chars@.skip(i as int));
    let mut j: usize = n;
    assert(chars@.skip(i as int) =~= chars@.subrange(i as int, n as int));
    while j > i && chars[j - 1] == '>'
        invariant
            n == chars@.len(),
            i <= j <= n,
            strip_mention_end(strip_mention_start(chars@)) == strip_mention_end(
                chars@.subrange(i as int, j as int),
            ),
        decreases j - i,
    {
        assert(chars@.subrange(i as int, j as int).drop_last() =~= chars@.subrange(i as int, j - 1));
        j -= 1;
    }
    let mut trimmed: Vec<char> = Vec::new();
    let mut k: usize = i;
    while k < j
        invariant
            n == chars@.len(),
            i <= k <= j <= n,
            trimmed@ == chars@.subrange(i as int, k as int),
        decreases j - k,
    {
        trimmed.push(chars[k]);
        k += 1;
    }
    let pieces = split_chars(&trimmed, '|');
    proof {
        crate::text::lemma_split_by_nonempty(trimmed@, equals_char('|'));
    }
    assert(pieces@.len() >= 1);
    assert(pieces@[0]@ == split_on(trimmed@, '|')[0]);
    string_from_chars(&pieces[0])
}

} // verus!
