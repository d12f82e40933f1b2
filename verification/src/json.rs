use crate::numfmt::{dec_chars_nat, frac_chars, format_fraction, hex_digit_char, push_u64_decimal};
use crate::reservoir::CandidateItem;
use crate::text::{push_char, push_str_all};
use vstd::prelude::*;
use vstd::string::StrSliceExecFns;

verus! {

/// How one character stands inside a JSON string literal: the two quoting
/// characters and the named control characters get a short escape, other
/// control characters a four-digit one, everything else stands as itself.
pub open spec fn json_escaped_char(c: char) -> Seq<char> {
    if c == '"' {
        seq!['\\', '"']
    } else if c == '\\' {
        seq!['\\', '\\']
    } else if c == '\u{8}' {
        seq!['\\', 'b']
    } else if c == '\u{9}' {
        seq!['\\', 't']
    } else if c == '\u{a}' {
        seq!['\\', 'n']
    } else if c == '\u{c}' {
        seq!['\\', 'f']
    } else if c == '\u{d}' {
        seq!['\\', 'r']
    } else if (c as int) < 32 {
        seq!['\\', 'u', '0', '0', hex_digit_char(c as int / 16), hex_digit_char(c as int % 16)]
    } else {
        seq![c]
    }
}

/// A text with every character escaped for a JSON string literal.
pub open spec fn json_escaped(s: Seq<char>) -> Seq<char>
    decreases s.len(),
{
    if s.len() == 0 {
        Seq::empty()
    } else {
        json_escaped(s.drop_last()) + json_escaped_char(s.last())
    }
}

/// A JSON string literal: quotes around the escaped text.
pub open spec fn json_string_chars(s: Seq<char>) -> Seq<char> {
    seq!['"'] + json_escaped(s) + seq!['"']
}

fn push_json_escaped_char(out: &mut String, c: char)
    ensures
        final(out)@ == old(out)@ + json_escaped_char(c),
{
    if c == '"' {
        push_char(out, '\\');
        push_char(out, '"');
        assert(out@ =~= old(out)@ + json_escaped_char(c));
    } else if c == '\\' {
        push_char(out, '\\');
        push_char(out, '\\');
        assert(out@ =~= old(out)@ + json_escaped_char(c));
    } else if c == '\u{8}' {
        push_char(out, '\\');
        push_char(out, 'b');
        assert(out@ =~= old(out)@ + json_escaped_char(c));
    } else if c == '\u{9}' {
        push_char(out, '\\');
        push_char(out, 't');
        assert(out@ =~= old(out)@ + json_escaped_char(c));
    } else if c == '\u{a}' {
        push_char(out, '\\');
        push_char(out, 'n');
        assert(out@ =~= old(out)@ + json_escaped_char(c));
    } else if c == '\u{c}' {
        push_char(out, '\\');
        push_char(out, 'f');
        assert(out@ =~= old(out)@ + json_escaped_char(c));
    } else if c == '\u{d}' {
        push_char(out, '\\');
        push_char(out, 'r');
        assert(out@ =~= old(out)@ + json_escaped_char(c));
    } else if (c as u32) < 32 {
        let v = c as u32;
        let hi = (v / 16) as u8;
        let lo = (v % 16) as u8;
        push_char(out, '\\');
        push_char(out, 'u');
        push_char(out, '0');
        push_char(out, '0');
        push_char(
            out,
            if hi < 10 {
                (48 + hi) as char
            } else {
                (87 + hi) as char
            },
        );
        push_char(
            out,
            if lo < 10 {
                (48 + lo) as char
            } else {
                (87 + lo) as char
            },
        );
        assert(out@ =~= old(out)@ + json_escaped_char(c));
    } else {
        push_char(out, c);
        assert(out@ =~= old(out)@ + json_escaped_char(c));
    }
}

/// Appends a JSON string literal holding `s`.
fn push_json_string(out: &mut String, s: &str)
    ensures
        final(out)@ == old(out)@ + json_string_chars(s@),
{
    push_char(out, '"');
    let n = s.unicode_len();
    let mut i: usize = 0;
    while i < n
        invariant
            0 <= i <= n,
            n == s@.len(),
            out@ == old(out)@.push('"') + json_escaped(s@.take(i as int)),
        decreases n - i,
    {
        let c = s.get_char(i);
        push_json_escaped_char(out, c);
        proof {
            let t = s@.take((i + 1) as int);
            assert(t.drop_last() =~= s@.take(i as int));
            assert(t.last() == s@[i as int]);
            assert(out@ =~= old(out)@.push('"') + json_escaped(t));
        }
        i += 1;
    }
    push_char(out, '"');
    proof {
        assert(s@.take(s@.len() as int) =~= s@);
        assert(out@ =~= old(out)@ + json_string_chars(s@));
    }
}

/// One ranked entry of the terminal payload, fields in wire order.
pub open spec fn item_json_chars(it: CandidateItem) -> Seq<char> {
    "{\"id\":"@ + json_string_chars(it.id@) + ",\"url\":"@ + json_string_chars(it.url@)
        + ",\"num_comments\":"@ + dec_chars_nat(it.num_comments as nat) + "}"@
}

/// The ranked entries joined by commas.
pub open spec fn items_json_chars(items: Seq<CandidateItem>) -> Seq<char>
    decreases items.len(),
{
    if items.len() == 0 {
        Seq::empty()
    } else if items.len() == 1 {
        item_json_chars(items[0])
    } else {
        items_json_chars(items.drop_last()) + seq![','] + item_json_chars(items.last())
    }
}

/// The terminal event's payload: the ranked result list.
pub open spec fn result_json_chars(items: Seq<CandidateItem>) -> Seq<char> {
    "{\"images\":["@ + items_json_chars(items) + "]}"@
}

fn push_item_json(out: &mut String, it: &CandidateItem)
    ensures
        final(out)@ == old(out)@ + item_json_chars(*it),
{
    push_str_all(out, "{\"id\":");
    push_json_string(out, it.id.as_str());
    push_str_all(out, ",\"url\":");
    push_json_string(out, it.url.as_str());
    push_str_all(out, ",\"num_comments\":");
    push_u64_decimal(out, it.num_comments);
    push_str_all(out, "}");
    assert(out@ =~= old(out)@ + item_json_chars(*it));
}

/// Serializes the terminal payload for the ranked result list.
pub fn result_json(items: &Vec<CandidateItem>) -> (r: String)
    ensures
        r@ == result_json_chars(items@),
{
    let mut out = String::new();
    push_str_all(&mut out, "{\"images\":[");
    let ghost head = out@;
    let mut i: usize = 0;
    while i < items.len()
        invariant
            0 <= i <= items@.len(),
            head == "{\"images\":["@,
            out@ == head + items_json_chars(items@.take(i as int)),
        decreases items@.len() - i,
    {
        if i > 0 {
            push_char(&mut out, ',');
        }
        push_item_json(&mut out, &items[i]);
        proof {
            let t = items@.take((i + 1) as int);
            assert(t.drop_last() =~= items@.take(i as int));
            assert(t.last() == items@[i as int]);
            if i == 0 {
                assert(items@.take(0int) =~= Seq::<CandidateItem>::empty());
                assert(t =~= seq![items@[0int]]);
                assert(t[0] == items@[0int]);
            }
            assert(out@ =~= head + items_json_chars(t));
        }
        i += 1;
    }
    push_str_all(&mut out, "]}");
    proof {
        assert(items@.take(items@.len() as int) =~= items@);
        assert(out@ =~= result_json_chars(items@));
    }
    out
}

/// One progress notice of the stream: the completion fraction, and, when a
/// candidate was just classified, its link spliced in as it stands.
pub open spec fn progress_event_chars(num: nat, den: nat, msg: Option<Seq<char>>) -> Seq<
    char,
> {
    match msg {
        None => "{\"v\":"@ + frac_chars(num, den) + "}"@,
        Some(m) => "{\"v\":"@ + frac_chars(num, den) + ",\"msg\":\""@ + m + "\"}"@,
    }
}

/// Serializes one progress notice.
pub fn progress_event(num: u64, den: u64, msg: Option<&str>) -> (r: String)
    requires
        0 < den <= 1_000_000_000_000,
    ensures
        r@ == progress_event_chars(
            num as nat,
            den as nat,
            match msg {
                Some(m) => Some(m@),
                None => None,
            },
        ),
{
    let mut out = String::new();
    push_str_all(&mut out, "{\"v\":");
    let frac = format_fraction(num, den);
    push_str_all(&mut out, frac.as_str());
    match msg {
        None => {
            push_str_all(&mut out, "}");
            assert(out@ =~= progress_event_chars(num as nat, den as nat, None));
        },
        Some(m) => {
            push_str_all(&mut out, ",\"msg\":\"");
            push_str_all(&mut out, m);
            push_str_all(&mut out, "\"}");
            assert(out@ =~= progress_event_chars(num as nat, den as nat, Some(m@)));
        },
    }
    out
}

} // verus!
