//! The texts sent to the broadcast channel and the operator log channel.

use vstd::prelude::*;
use vstd::string::{StrSliceExecFns, StringExecFns};
use crate::category::{category_of_tag, emoji_of, label_of, Category};
use crate::config::{lookup_or, param_or_default};
use crate::store::Notice;
use crate::text::same_text;

verus! {

/// The characters that Telegram's MarkdownV2 reserves.
pub open spec fn is_markdown_special(c: char) -> bool {
    c == '_' || c == '*' || c == '[' || c == ']' || c == '(' || c == ')' || c == '~' || c == '`'
        || c == '>' || c == '#' || c == '+' || c == '-' || c == '=' || c == '|' || c == '{' || c == '}'
        || c == '.' || c == '!'
}

/// `s` with a backslash before each reserved character.
pub open spec fn markdown_escaped(s: Seq<char>) -> Seq<char>
    decreases s.len(),
{
    if s.len() == 0 {
        Seq::empty()
    } else if is_markdown_special(s.last()) {
        markdown_escaped(s.drop_last()) + seq!['\\', s.last()]
    } else {
        markdown_escaped(s.drop_last()) + seq![s.last()]
    }
}

/// Escapes the characters that MarkdownV2 reserves.
pub fn escape_markdown(text: &str) -> (r: String)
    ensures
        r@ == markdown_escaped(text@),
{
    let n = text.unicode_len();
    let mut out = String::new();
    let mut i: usize = 0;
    proof {
        reveal_strlit("\\");
    }
    while i < n
        invariant
            n == text@.len(),
            i <= n,
            out@ == markdown_escaped(text@.subrange(0, i as int)),
            "\\"@ == seq!['\\'],
        decreases n - i,
    {
        assert(text@.subrange(0, i + 1).drop_last() =~= text@.subrange(0, i as int));
        let c = text.get_char(i);
        let special = c == '_' || c == '*' || c == '[' || c == ']' || c == '(' || c == ')' || c == '~'
            || c == '`' || c == '>' || c == '#' || c == '+' || c == '-' || c == '=' || c == '|' || c == '{'
            || c == '}' || c == '.' || c == '!';
        if special {
            out.append("\\");
        }
        let one = text.substring_char(i, i + 1);
        assert(one@ =~= seq![c]);
        out.append(one);
        proof {
            if special {
                assert(out@ =~= markdown_escaped(text@.subrange(0, i as int)) + seq!['\\', c]);
            }
        }
        i = i + 1;
    }
    assert(text@.subrange(0, n as int) =~= text@);
    out
}

/// The category marker shown before a title: the label in brackets, and
/// nothing for general notices.
pub open spec fn category_tag(tag: Seq<char>) -> Seq<char> {
    if tag != "general"@ {
        "["@ + label_of(category_of_tag(tag))@ + "] "@
    } else {
        Seq::empty()
    }
}

pub open spec fn or_unknown(o: Option<String>, unknown: Seq<char>) -> Seq<char> {
    match o {
        Some(s) => s@,
        None => unknown,
    }
}

/// The broadcast message of a notice: emoji, source in bold, category tag
/// and title, then date and author, the text parts escaped.
pub fn notice_text(notice: &Notice) -> (r: String)
    ensures
        r@ == emoji_of(category_of_tag(notice.category@))@ + " *"@ + markdown_escaped(notice.source_display_name@)
            + "*\n\n"@ + markdown_escaped(category_tag(notice.category@)) + markdown_escaped(notice.title@)
            + "\n\n\u{1f4c5} "@ + markdown_escaped(or_unknown(notice.published, "날짜 미상"@))
            + " \\| \u{270d}\u{fe0f} "@ + markdown_escaped(or_unknown(notice.author, "작성자 미상"@)),
{
    let category = Category::from_str_tag(notice.category.as_str());
    let mut tag = String::new();
    if !same_text(notice.category.as_str(), "general") {
        tag.append("[");
        tag.append(category.label());
        tag.append("] ");
    }
    let mut s = String::from_str(category.emoji());
    s.append(" *");
    let src = escape_markdown(notice.source_display_name.as_str());
    s.append(src.as_str());
    s.append("*\n\n");
    let t = escape_markdown(tag.as_str());
    s.append(t.as_str());
    let title = escape_markdown(notice.title.as_str());
    s.append(title.as_str());
    s.append("\n\n\u{1f4c5} ");
    let date = match &notice.published {
        Some(p) => escape_markdown(p.as_str()),
        None => escape_markdown("날짜 미상"),
    };
    s.append(date.as_str());
    s.append(" \\| \u{270d}\u{fe0f} ");
    let author = match &notice.author {
        Some(a) => escape_markdown(a.as_str()),
        None => escape_markdown("작성자 미상"),
    };
    s.append(author.as_str());
    s
}

/// The channel for a notice of `source_key`: its override in `channel_map`,
/// else `default`.
pub fn channel_for(source_key: &str, channel_map: &Vec<(String, String)>, default: &str) -> (r: String)
    ensures
        r@ == param_or_default(channel_map@, source_key@, default@),
{
    lookup_or(channel_map, source_key, default)
}

/// The decimal digits of `n`.
pub open spec fn decimal(n: nat) -> Seq<char>
    decreases n,
{
    if n < 10 {
        seq![digit_char(n)]
    } else {
        decimal(n / 10) + seq![digit_char(n % 10)]
    }
}

pub open spec fn digit_char(d: nat) -> char {
    if d == 0 { '0' } else if d == 1 { '1' } else if d == 2 { '2' } else if d == 3 { '3' }
    else if d == 4 { '4' } else if d == 5 { '5' } else if d == 6 { '6' } else if d == 7 { '7' }
    else if d == 8 { '8' } else { '9' }
}

fn digit_text(d: u64) -> (r: &'static str)
    requires
        d < 10,
    ensures
        r@ == seq![digit_char(d as nat)],
{
    proof {
        reveal_strlit("0");
        reveal_strlit("1");
        reveal_strlit("2");
        reveal_strlit("3");
        reveal_strlit("4");
        reveal_strlit("5");
        reveal_strlit("6");
        reveal_strlit("7");
        reveal_strlit("8");
        reveal_strlit("9");
    }
    if d == 0 { "0" } else if d == 1 { "1" } else if d == 2 { "2" } else if d == 3 { "3" }
    else if d == 4 { "4" } else if d == 5 { "5" } else if d == 6 { "6" } else if d == 7 { "7" }
    else if d == 8 { "8" } else { "9" }
}

/// The decimal form of `n`.
pub fn decimal_text(n: u64) -> (r: String)
    ensures
        r@ == decimal(n as nat),
    decreases n,
{
    if n < 10 {
        String::from_str(digit_text(n))
    } else {
        let mut s = decimal_text(n / 10);
        s.append(digit_text(n % 10));
        s
    }
}

/// The operator alert for a source that failed `count` times in a row.
pub fn alert_text(source_key: &str, count: u32, error: &str) -> (r: String)
    ensures
        r@ == "\u{26a0}\u{fe0f} 크롤링 경고\n\n소스: "@ + source_key@ + "\n상태: 연속 "@ + decimal(count as nat)
            + "회 실패\n에러: "@ + error@,
{
    let mut s = String::from_str("\u{26a0}\u{fe0f} 크롤링 경고\n\n소스: ");
    s.append(source_key);
    s.append("\n상태: 연속 ");
    let c = decimal_text(count as u64);
    s.append(c.as_str());
    s.append("회 실패\n에러: ");
    s.append(error);
    s
}

/// One source's entry in the cycle summary: `key:count`, or `key:ERR`
/// for a failed source.
pub fn source_stat(source_key: &str, new_count: Option<u64>) -> (r: String)
    ensures
        r@ == source_key@ + ":"@ + match new_count {
            Some(c) => decimal(c as nat),
            None => "ERR"@,
        },
{
    let mut s = String::from_str(source_key);
    s.append(":");
    match new_count {
        Some(c) => {
            let t = decimal_text(c);
            s.append(t.as_str());
        },
        None => s.append("ERR"),
    }
    s
}

/// The entries joined by single spaces.
pub open spec fn joined(parts: Seq<String>) -> Seq<char>
    decreases parts.len(),
{
    if parts.len() == 0 {
        Seq::empty()
    } else if parts.len() == 1 {
        parts[0]@
    } else {
        joined(parts.drop_last()) + " "@ + parts.last()@
    }
}

/// The summary of a crawl cycle.
pub fn cycle_summary(total_new: u64, sent: u64, dm_sent: u64, stats: &Vec<String>) -> (r: String)
    ensures
        r@ == "\u{2705} Crawl done: "@ + decimal(total_new as nat) + " new / "@ + decimal(sent as nat)
            + " ch-sent / "@ + decimal(dm_sent as nat) + " dm | "@ + joined(stats@),
{
    let mut s = String::from_str("\u{2705} Crawl done: ");
    let a = decimal_text(total_new);
    s.append(a.as_str());
    s.append(" new / ");
    let b = decimal_text(sent);
    s.append(b.as_str());
    s.append(" ch-sent / ");
    let c = decimal_text(dm_sent);
    s.append(c.as_str());
    s.append(" dm | ");
    let ghost head = s@;
    let mut i: usize = 0;
    while i < stats.len()
        invariant
            i <= stats@.len(),
            s@ == head + joined(stats@.subrange(0, i as int)),
        decreases stats@.len() - i,
    {
        assert(stats@.subrange(0, i + 1).drop_last() =~= stats@.subrange(0, i as int));
        if i > 0 {
            s.append(" ");
        }
        s.append(stats[i].as_str());
        proof {
            if i == 0 {
                assert(joined(stats@.subrange(0, 1)) == stats@[0]@);
            }
        }
        assert(s@ =~= head + joined(stats@.subrange(0, i + 1)));
        i = i + 1;
    }
    assert(stats@.subrange(0, stats@.len() as int) =~= stats@);
    s
}

/// A summary is sent only for a cycle with some activity.
pub fn summary_wanted(total_new: u64, sent: u64, dm_sent: u64) -> (r: bool)
    ensures
        r == (total_new > 0 || sent > 0 || dm_sent > 0),
{
    total_new > 0 || sent > 0 || dm_sent > 0
}

} // verus!
