//! What `inspect` shows of a secret: a masked preview that keeps only the
//! ends of a long value and hides a short one completely.

use vstd::prelude::*;
use vstd::utf8::decode_utf8;
use vstd::utf8::valid_utf8;

use crate::text::chars_of;
use crate::text::push_char;

verus! {

/// The character that stands for a hidden one.
pub const BULLET: char = '\u{2022}';

/// `n` bullets.
pub open spec fn bullets(n: nat) -> Seq<char> {
    Seq::new(n, |i: int| BULLET)
}

/// A line break character that is trimmed from the end of a value.
pub open spec fn is_line_end(c: char) -> bool {
    c == '\n' || c == '\r'
}

/// `text` without the line feeds and carriage returns at its end.
pub open spec fn trim_line_ends(text: Seq<char>) -> Seq<char>
    decreases text.len(),
{
    if text.len() > 0 && is_line_end(text.last()) {
        trim_line_ends(text.drop_last())
    } else {
        text
    }
}

/// The preview of `text`: with its line ends trimmed, fewer than twelve
/// characters become eight bullets; otherwise the first three and last three
/// characters stay, with six bullets between them.
pub open spec fn masked(text: Seq<char>) -> Seq<char> {
    let t = trim_line_ends(text);
    if t.len() < 12 {
        bullets(8)
    } else {
        t.take(3) + bullets(6) + t.skip(t.len() - 3)
    }
}

/// The characters that `String::from_utf8_lossy` reads from `bytes`: the
/// characters that the bytes encode, with each invalid sequence replaced by
/// U+FFFD.
pub uninterp spec fn lossy_utf8(bytes: Seq<u8>) -> Seq<char>;

/// Reads `bytes` as UTF-8 with `String::from_utf8_lossy`. Its contract: the
/// result is [`lossy_utf8`] of the bytes, and where the bytes are valid UTF-8
/// it is the characters they encode. How invalid sequences are replaced is
/// left unsaid.
#[verifier::external_body]
fn utf8_lossy(bytes: &[u8]) -> (result: String)
    ensures
        result@ == lossy_utf8(bytes@),
        valid_utf8(bytes@) ==> result@ == decode_utf8(bytes@),
{
    String::from_utf8_lossy(bytes).into_owned()
}

/// A short secret is hidden completely: any two values of fewer than twelve
/// characters, line ends aside, have the same preview, eight bullets.
pub proof fn law_short_values_hidden(a: Seq<char>, b: Seq<char>)
    requires
        trim_line_ends(a).len() < 12,
        trim_line_ends(b).len() < 12,
    ensures
        masked(a) == masked(b),
        masked(a) == bullets(8),
{
}

/// A long secret keeps only its ends: its preview is twelve characters, six
/// bullets between the first three and the last three characters, and two
/// values that agree on those ends have the same preview.
pub proof fn law_long_values_keep_only_the_ends(a: Seq<char>, b: Seq<char>)
    requires
        trim_line_ends(a).len() >= 12,
        trim_line_ends(b).len() >= 12,
    ensures
        masked(a).len() == 12,
        forall|i: int| 3 <= i < 9 ==> masked(a)[i] == BULLET,
        masked(a).take(3) == trim_line_ends(a).take(3),
        masked(a).skip(9) == trim_line_ends(a).skip(trim_line_ends(a).len() - 3),
        forall|i: int| 0 <= i < 3 ==> #[trigger] masked(a)[i] == trim_line_ends(a)[i],
        forall|i: int|
            9 <= i < 12 ==> #[trigger] masked(a)[i] == trim_line_ends(a)[trim_line_ends(a).len()
                - 12 + i],
        ({
            let ta = trim_line_ends(a);
            let tb = trim_line_ends(b);
            ta.take(3) == tb.take(3) && ta.skip(ta.len() - 3) == tb.skip(tb.len() - 3)
        }) ==> masked(a) == masked(b),
{
    let t = trim_line_ends(a);
    assert(masked(a).take(3) =~= t.take(3));
    assert(masked(a).skip(9) =~= t.skip(t.len() - 3));
}

/// Trimming removes the line feeds and carriage returns at the end of a text
/// and nothing else: what is left is the start of the text, every character
/// cut off is a line end, and what is left does not end in one.
pub proof fn law_trim_removes_only_trailing_line_ends(text: Seq<char>)
    ensures
        trim_line_ends(text).is_prefix_of(text),
        forall|i: int|
            trim_line_ends(text).len() <= i < text.len() ==> is_line_end(#[trigger] text[i]),
        trim_line_ends(text).len() == 0 || !is_line_end(trim_line_ends(text).last()),
    decreases text.len(),
{
    if text.len() > 0 && is_line_end(text.last()) {
        let rest = text.drop_last();
        law_trim_removes_only_trailing_line_ends(rest);
        let t = trim_line_ends(rest);
        assert(t =~= text.subrange(0, t.len() as int)) by {
            assert(t =~= rest.subrange(0, t.len() as int));
        }
        assert forall|i: int| t.len() <= i < text.len() implies is_line_end(#[trigger] text[i]) by {
            if i < rest.len() {
                assert(text[i] == rest[i]);
            }
        }
    } else {
        assert(text =~= text.subrange(0, text.len() as int));
    }
}

/// Line feeds and carriage returns at the end of a value do not change its
/// preview.
pub proof fn law_line_ends_ignored(text: Seq<char>, c: char)
    requires
        is_line_end(c),
    ensures
        masked(text.push(c)) == masked(text),
{
    assert(text.push(c).drop_last() =~= text);
}

/// Appends `n` bullets to `s`.
fn push_bullets(s: &mut String, n: usize)
    ensures
        final(s)@ == old(s)@ + bullets(n as nat),
{
    let mut i: usize = 0;
    while i < n
        invariant
            i <= n,
            s@ == old(s)@ + bullets(i as nat),
        decreases n - i,
    {
        push_char(s, BULLET);
        i = i + 1;
        proof {
            assert(s@ =~= old(s)@ + bullets(i as nat));
        }
    }
}

/// Appends `chars[from..to]` to `s`.
fn push_range(s: &mut String, chars: &Vec<char>, from: usize, to: usize)
    requires
        from <= to <= chars@.len(),
    ensures
        final(s)@ == old(s)@ + chars@.subrange(from as int, to as int),
{
    let mut i: usize = from;
    while i < to
        invariant
            from <= i <= to,
            to <= chars@.len(),
            s@ == old(s)@ + chars@.subrange(from as int, i as int),
        decreases to - i,
    {
        push_char(s, chars[i]);
        i = i + 1;
        proof {
            assert(s@ =~= old(s)@ + chars@.subrange(from as int, i as int));
        }
    }
}

/// The preview of a text: see [`masked`].
pub fn mask_text(text: &str) -> (result: String)
    ensures
        result@ == masked(text@),
{
    let chars = chars_of(text);
    let mut end: usize = chars.len();
    proof {
        assert(text@.take(end as int) =~= text@);
    }
    while end > 0 && (chars[end - 1] == '\n' || chars[end - 1] == '\r')
        invariant
            end <= chars@.len(),
            chars@ == text@,
            trim_line_ends(text@) == trim_line_ends(text@.take(end as int)),
        decreases end,
    {
        proof {
            assert(text@.take(end as int).drop_last() =~= text@.take(end - 1));
        }
        end = end - 1;
    }
    let ghost t = text@.take(end as int);
    proof {
        assert(trim_line_ends(t) == t);
    }
    let mut out = String::new();
    if end < 12 {
        push_bullets(&mut out, 8);
        proof {
            assert(out@ =~= bullets(8));
        }
    } else {
        push_range(&mut out, &chars, 0, 3);
        push_bullets(&mut out, 6);
        push_range(&mut out, &chars, end - 3, end);
        proof {
            assert(chars@.subrange(0, 3) =~= t.take(3));
            assert(chars@.subrange(end - 3, end as int) =~= t.skip(t.len() - 3));
            assert(out@ =~= t.take(3) + bullets(6) + t.skip(t.len() - 3));
        }
    }
    out
}

/// The preview of a secret's bytes, read as UTF-8 with invalid sequences
/// replaced: see [`masked`].
pub fn mask(value: &[u8]) -> (result: String)
    ensures
        result@ == masked(lossy_utf8(value@)),
        valid_utf8(value@) ==> result@ == masked(decode_utf8(value@)),
{
    let text = utf8_lossy(value);
    mask_text(text.as_str())
}

} // verus!
