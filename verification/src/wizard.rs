//! The decisions of `op-cache config`, the interactive setup: which
//! references to offer, what the dialog about per-reference lifetimes asks
//! next and what it changes, and the checks on what is typed in.
//!
//! The prompts themselves are drawn by the caller, which hands each answer
//! back here.

use vstd::prelude::*;

use crate::daemon::Entry;
use crate::keyed::has_key;
use crate::keyed::KeyedVec;
use crate::text::chars_of;
use crate::text::push_char;
use crate::text::string_of;
use crate::order::key_lt;

verus! {

/// The character that separates the arguments of a `read` in a cache key.
pub const KEY_SEPARATOR: char = '\u{1f}';

/// The start of every secret reference.
pub open spec fn reference_prefix() -> Seq<char> {
    seq!['o', 'p', ':', '/', '/']
}

/// `s` is a secret reference: it starts with `op://`.
pub open spec fn is_reference_text(s: Seq<char>) -> bool {
    s.len() >= 5 && s.take(5) == reference_prefix()
}

/// A text is a reference just when its first five characters are `o`, `p`,
/// `:`, `/`, `/`, whatever follows them: `op://` followed by anything, a
/// whole vault with a trailing `/` among them, is a reference.
pub proof fn law_reference_is_anything_after_op(s: Seq<char>, rest: Seq<char>)
    ensures
        is_reference_text(s) == (s.len() >= 5 && s[0] == 'o' && s[1] == 'p' && s[2] == ':'
            && s[3] == '/' && s[4] == '/'),
        is_reference_text(seq!['o', 'p', ':', '/', '/'] + rest),
{
    if s.len() >= 5 && s[0] == 'o' && s[1] == 'p' && s[2] == ':' && s[3] == '/' && s[4] == '/' {
        assert(s.take(5) =~= reference_prefix());
    }
    if is_reference_text(s) {
        assert(s.take(5)[0] == s[0]);
        assert(s.take(5)[1] == s[1]);
        assert(s.take(5)[2] == s[2]);
        assert(s.take(5)[3] == s[3]);
        assert(s.take(5)[4] == s[4]);
    }
    let t = seq!['o', 'p', ':', '/', '/'] + rest;
    assert(t.take(5) =~= reference_prefix());
}

/// The parts of `s` between separators, as `str::split` gives them: one
/// more part than there are separators.
pub open spec fn split_fields(s: Seq<char>) -> Seq<Seq<char>>
    decreases s.len(),
{
    if s.len() == 0 {
        seq![Seq::<char>::empty()]
    } else {
        let f = split_fields(s.drop_last());
        if s.last() == KEY_SEPARATOR {
            f.push(Seq::<char>::empty())
        } else {
            f.update(f.len() - 1, f.last().push(s.last()))
        }
    }
}

/// The first of `fields` that is a secret reference.
pub open spec fn first_reference(fields: Seq<Seq<char>>) -> Option<Seq<char>>
    decreases fields.len(),
{
    if fields.len() == 0 {
        None
    } else if is_reference_text(fields[0]) {
        Some(fields[0])
    } else {
        first_reference(fields.drop_first())
    }
}

/// The reference a cache key is for: the first of its arguments that is a
/// reference.
pub open spec fn key_reference(key: Seq<char>) -> Option<Seq<char>> {
    first_reference(split_fields(key))
}

/// `fields` put back together, with a separator between each two.
pub open spec fn join_fields(fields: Seq<Seq<char>>) -> Seq<char>
    decreases fields.len(),
{
    if fields.len() == 0 {
        Seq::<char>::empty()
    } else if fields.len() == 1 {
        fields[0]
    } else {
        join_fields(fields.drop_last()) + seq![KEY_SEPARATOR] + fields.last()
    }
}

/// Keys are split at the separator and nowhere else: joining the parts with
/// the separator gives the key back, no part holds a separator, and a key
/// without a separator is a single part, spaces and all.
pub proof fn law_split_at_separator_only(s: Seq<char>)
    ensures
        split_fields(s).len() >= 1,
        join_fields(split_fields(s)) == s,
        forall|i: int, j: int|
            0 <= i < split_fields(s).len() && 0 <= j < split_fields(s)[i].len() ==> #[trigger] split_fields(
                s,
            )[i][j] != KEY_SEPARATOR,
        (forall|j: int| 0 <= j < s.len() ==> #[trigger] s[j] != KEY_SEPARATOR) ==> split_fields(s)
            == seq![s],
    decreases s.len(),
{
    if s.len() > 0 {
        let rest = s.drop_last();
        let c = s.last();
        law_split_at_separator_only(rest);
        let f = split_fields(rest);
        let n = f.len();
        if c == KEY_SEPARATOR {
            let g = f.push(Seq::<char>::empty());
            assert(g.drop_last() =~= f);
            assert(join_fields(g) =~= s);
            assert forall|i: int, j: int|
                0 <= i < g.len() && 0 <= j < g[i].len() implies #[trigger] g[i][j] != KEY_SEPARATOR by {
                assert(i < n);
                assert(g[i] == f[i]);
            }
            assert(s[s.len() - 1] == KEY_SEPARATOR);
        } else {
            let g = f.update(n - 1, f.last().push(c));
            if n == 1 {
                assert(join_fields(g) =~= s);
            } else {
                assert(g.drop_last() =~= f.drop_last());
                assert(g.last() == f.last().push(c));
                assert(join_fields(f) == join_fields(f.drop_last()) + seq![KEY_SEPARATOR] + f.last());
                assert(join_fields(g) == join_fields(f.drop_last()) + seq![KEY_SEPARATOR] + f.last().push(c));
                assert(s =~= rest.push(c));
                assert(join_fields(g) =~= s);
            }
            assert forall|i: int, j: int|
                0 <= i < g.len() && 0 <= j < g[i].len() implies #[trigger] g[i][j] != KEY_SEPARATOR by {
                if i < n - 1 {
                    assert(g[i] == f[i]);
                } else if j < f.last().len() {
                    assert(g[i][j] == f[n - 1][j]);
                }
            }
            if forall|j: int| 0 <= j < s.len() ==> #[trigger] s[j] != KEY_SEPARATOR {
                assert forall|j: int| 0 <= j < rest.len() implies #[trigger] rest[j] != KEY_SEPARATOR by {
                    assert(rest[j] == s[j]);
                }
                assert(f == seq![rest]);
                assert(g =~= seq![s]);
            }
        }
    }
}

/// The first reference among `fields` found from index `i` on.
proof fn lemma_first_reference_skip(fields: Seq<Seq<char>>, i: int)
    requires
        0 <= i < fields.len(),
    ensures
        first_reference(fields.skip(i)) == if is_reference_text(fields[i]) {
            Some(fields[i])
        } else {
            first_reference(fields.skip(i + 1))
        },
{
    assert(fields.skip(i).drop_first() =~= fields.skip(i + 1));
}

/// Whether `s` starts with `op://`, as `str::starts_with` tells.
pub fn is_reference(s: &str) -> (result: bool)
    ensures
        result == is_reference_text(s@),
{
    starts_as_reference(&chars_of(s))
}

/// The parts of `chars` between separators.
fn split_chars(chars: &Vec<char>) -> (result: Vec<Vec<char>>)
    ensures
        result@.map_values(|f: Vec<char>| f@) == split_fields(chars@),
{
    let mut fields: Vec<Vec<char>> = Vec::new();
    let mut cur: Vec<char> = Vec::new();
    let mut i: usize = 0;
    proof {
        assert(chars@.take(0) =~= Seq::<char>::empty());
        assert(fields@.map_values(|f: Vec<char>| f@).push(cur@) =~= split_fields(
            chars@.take(0),
        ));
    }
    while i < chars.len()
        invariant
            i <= chars@.len(),
            split_fields(chars@.take(i as int)) == fields@.map_values(|f: Vec<char>| f@).push(
                cur@,
            ),
        decreases chars@.len() - i,
    {
        let ghost before = fields@.map_values(|f: Vec<char>| f@);
        proof {
            assert(chars@.take(i + 1).drop_last() =~= chars@.take(i as int));
        }
        if chars[i] == KEY_SEPARATOR {
            let done = cur;
            cur = Vec::new();
            fields.push(done);
            proof {
                assert(fields@.map_values(|f: Vec<char>| f@) =~= before.push(done@));
                assert(fields@.map_values(|f: Vec<char>| f@).push(cur@) =~= before.push(
                    done@,
                ).push(Seq::<char>::empty()));
            }
        } else {
            let ghost old_cur = cur@;
            cur.push(chars[i]);
            proof {
                assert(before.push(cur@) =~= before.push(old_cur).update(
                    before.len() as int,
                    old_cur.push(chars@[i as int]),
                ));
            }
        }
        i = i + 1;
    }
    let ghost before = fields@.map_values(|f: Vec<char>| f@);
    fields.push(cur);
    proof {
        assert(chars@.take(i as int) =~= chars@);
        assert(fields@.map_values(|f: Vec<char>| f@) =~= before.push(cur@));
    }
    fields
}

/// Whether `chars` starts with `op://`.
fn starts_as_reference(chars: &Vec<char>) -> (result: bool)
    ensures
        result == is_reference_text(chars@),
{
    if chars.len() < 5 {
        return false;
    }
    let result = chars[0] == 'o' && chars[1] == 'p' && chars[2] == ':' && chars[3] == '/'
        && chars[4] == '/';
    proof {
        if result {
            assert(chars@.take(5) =~= reference_prefix());
        } else if chars@.take(5) == reference_prefix() {
            assert(chars@.take(5)[0] == 'o');
            assert(chars@.take(5)[1] == 'p');
            assert(chars@.take(5)[2] == ':');
            assert(chars@.take(5)[3] == '/');
            assert(chars@.take(5)[4] == '/');
        }
    }
    result
}

/// The reference a cache key is for: the first of its arguments, separated
/// by [`KEY_SEPARATOR`], that starts with `op://`.
pub fn reference_in_key(key: &str) -> (result: Option<String>)
    ensures
        match result {
            Some(r) => key_reference(key@) == Some(r@),
            None => key_reference(key@) is None,
        },
{
    let chars = chars_of(key);
    let fields = split_chars(&chars);
    let ghost views = fields@.map_values(|f: Vec<char>| f@);
    let mut i: usize = 0;
    proof {
        assert(views.skip(0) =~= views);
    }
    while i < fields.len()
        invariant
            i <= fields@.len(),
            views == fields@.map_values(|f: Vec<char>| f@),
            views == split_fields(key@),
            first_reference(views) == first_reference(views.skip(i as int)),
        decreases fields@.len() - i,
    {
        proof {
            lemma_first_reference_skip(views, i as int);
        }
        if starts_as_reference(&fields[i]) {
            return Some(string_of(&fields[i]));
        }
        i = i + 1;
    }
    None
}

/// Some entry's key is for the reference `r`.
pub open spec fn referenced_by(entries: Seq<Entry>, r: Seq<char>) -> bool {
    exists|j: int| 0 <= j < entries.len() && key_reference(#[trigger] entries[j].key@) == Some(r)
}

/// The references that the daemon holds secrets for, taken from the keys of
/// its entries: each reference once, in order.
pub fn cached_references(entries: &Vec<Entry>) -> (result: Vec<String>)
    ensures
        forall|i: int, j: int|
            0 <= i < j < result@.len() ==> key_lt(#[trigger] result@[i]@, #[trigger] result@[j]@),
        forall|r: Seq<char>|
            (exists|i: int| 0 <= i < result@.len() && #[trigger] result@[i]@ == r) == referenced_by(
                entries@,
                r,
            ),
{
    let mut found: KeyedVec<()> = KeyedVec::new();
    let mut i: usize = 0;
    while i < entries.len()
        invariant
            i <= entries@.len(),
            forall|r: Seq<char>|
                #[trigger] found.as_map().contains_key(r) == referenced_by(entries@.take(i as int), r),
        decreases entries@.len() - i,
    {
        let ghost before = found.as_map();
        match reference_in_key(entries[i].key.as_str()) {
            Some(r) => {
                found.insert(r, ());
            },
            None => {},
        }
        proof {
            assert forall|r: Seq<char>|
                #[trigger] found.as_map().contains_key(r) == referenced_by(
                    entries@.take(i + 1),
                    r,
                ) by {
                if referenced_by(entries@.take(i + 1), r) {
                    let j = choose|j: int|
                        0 <= j < i + 1 && key_reference(
                            #[trigger] entries@.take(i + 1)[j].key@,
                        ) == Some(r);
                    if j < i {
                        assert(entries@.take(i as int)[j] == entries@.take(i + 1)[j]);
                    }
                }
                if referenced_by(entries@.take(i as int), r) {
                    let j = choose|j: int|
                        0 <= j < i && key_reference(#[trigger] entries@.take(i as int)[j].key@)
                            == Some(r);
                    assert(entries@.take(i as int)[j] == entries@.take(i + 1)[j]);
                }
                if key_reference(entries@[i as int].key@) == Some(r) {
                    assert(entries@.take(i + 1)[i as int] == entries@[i as int]);
                }
            }
        }
        i = i + 1;
    }
    proof {
        assert(entries@.take(i as int) =~= entries@);
        use_type_invariant(&found);
    }
    let mut result: Vec<String> = Vec::new();
    let mut k: usize = 0;
    while k < found.len()
        invariant
            k <= found@.len(),
            result@.len() == k,
            forall|r: Seq<char>| #[trigger] found.as_map().contains_key(r) == referenced_by(entries@, r),
            crate::keyed::sorted_by_key(found@),
            forall|j: int| 0 <= j < k ==> (#[trigger] result@[j])@ == found@[j].0,
        decreases found@.len() - k,
    {
        result.push(found.key_at(k).clone());
        k = k + 1;
    }
    proof {
        assert forall|a: int, b: int| 0 <= a < b < result@.len() implies key_lt(
            #[trigger] result@[a]@,
            #[trigger] result@[b]@,
        ) by {
            assert(result@[a]@ == found@[a].0);
            assert(result@[b]@ == found@[b].0);
        }
        assert forall|r: Seq<char>| referenced_by(entries@, r) implies exists|i: int|
            0 <= i < result@.len() && #[trigger] result@[i]@ == r by {
            assert(found.as_map().contains_key(r));
            assert(has_key(found@, r));
            let i = choose|i: int| 0 <= i < found@.len() && #[trigger] found@[i].0 == r;
            assert(result@[i]@ == r);
        }
        assert forall|i: int| 0 <= i < result@.len() implies referenced_by(
            entries@,
            #[trigger] result@[i]@,
        ) by {
            assert(found@[i].0 == result@[i]@);
            assert(has_key(found@, result@[i]@));
            assert(found.as_map().contains_key(result@[i]@));
        }
    }
    result
}

/// `s` is an absolute path: it starts with `/`.
pub open spec fn is_absolute_text(s: Seq<char>) -> bool {
    s.len() > 0 && s[0] == '/'
}

/// Whether a socket path typed in is absolute, as `str::starts_with('/')`
/// tells.
pub fn is_absolute_path(s: &str) -> (result: bool)
    ensures
        result == is_absolute_text(s@),
{
    let chars = chars_of(s);
    chars.len() > 0 && chars[0] == '/'
}

/// `path` as it is shown: with the home directory `home`, when there is one
/// and `path` starts with it, written as `~`.
pub open spec fn shown_path(path: Seq<char>, home: Option<Seq<char>>) -> Seq<char> {
    match home {
        Some(h) => if h.len() > 0 && h.is_prefix_of(path) {
            seq!['~'] + path.skip(h.len() as int)
        } else {
            path
        },
        None => path,
    }
}

/// A path as the setup shows it, given the home directory, if it is known:
/// see [`shown_path`].
pub fn display_path(path: &str, home: Option<&str>) -> (result: String)
    ensures
        result@ == shown_path(path@, match home {
            Some(h) => Some(h@),
            None => None,
        }),
{
    let p = chars_of(path);
    match home {
        None => string_of(&p),
        Some(hm) => {
            let h = chars_of(hm);
            if h.len() == 0 || h.len() > p.len() {
                return string_of(&p);
            }
            let mut i: usize = 0;
            while i < h.len()
                invariant
                    p@ == path@,
                    h@ == hm@,
                    home == Some(hm),
                    h@.len() <= p@.len(),
                    i <= h@.len(),
                    forall|j: int| 0 <= j < i ==> h@[j] == p@[j],
                decreases h@.len() - i,
            {
                if h[i] != p[i] {
                    proof {
                        if h@.is_prefix_of(p@) {
                            assert(h@[i as int] == p@.subrange(0, h@.len() as int)[i as int]);
                        }
                    }
                    return string_of(&p);
                }
                i = i + 1;
            }
            proof {
                assert(h@ =~= p@.subrange(0, h@.len() as int));
            }
            let mut result = String::new();
            push_char(&mut result, '~');
            let mut k: usize = h.len();
            while k < p.len()
                invariant
                    p@ == path@,
                    h@ == hm@,
                    home == Some(hm),
                    h@.len() <= k <= p@.len(),
                    result@ == seq!['~'] + p@.subrange(h@.len() as int, k as int),
                decreases p@.len() - k,
            {
                push_char(&mut result, p[k]);
                k = k + 1;
                proof {
                    assert(result@ =~= seq!['~'] + p@.subrange(h@.len() as int, k as int));
                }
            }
            proof {
                assert(p@.subrange(h@.len() as int, k as int) =~= p@.skip(h@.len() as int));
            }
            result
        },
    }
}

/// The text humantime's `format_duration` gives for a duration of `secs`
/// seconds and `nanos` nanoseconds, such as `1h 30m`.
pub uninterp spec fn humantime_text(secs: u64, nanos: u32) -> Seq<char>;

/// Writes a duration as humantime's `format_duration` does. Its contract
/// names the result and claims nothing of its characters.
#[verifier::external_body]
fn format_duration(secs: u64, nanos: u32) -> (result: String)
    requires
        nanos < 1_000_000_000,
    ensures
        result@ == humantime_text(secs, nanos),
{
    humantime::format_duration(std::time::Duration::new(secs, nanos)).to_string()
}

/// A lifetime of `nanos` nanoseconds fits in a `Duration`.
pub open spec fn fits_duration(nanos: u128) -> bool {
    nanos / 1_000_000_000 <= u64::MAX
}

/// The text a lifetime of `nanos` nanoseconds is written as.
pub open spec fn lifetime_text(nanos: u128) -> Seq<char> {
    humantime_text((nanos / 1_000_000_000) as u64, (nanos % 1_000_000_000) as u32)
}

/// What the lifetime question offers to start from: the current lifetime
/// written out, or `example` when there is none.
pub fn lifetime_default(current: Option<u128>, example: &str) -> (result: String)
    requires
        current matches Some(t) ==> fits_duration(t),
    ensures
        result@ == match current {
            Some(t) => lifetime_text(t),
            None => example@,
        },
{
    match current {
        Some(t) => format_duration((t / 1_000_000_000) as u64, (t % 1_000_000_000) as u32),
        None => example.to_string(),
    }
}

/// A lifetime written out, or `never` for none.
pub open spec fn lifetime_or(ttl: Option<u128>, never: Seq<char>) -> Seq<char> {
    match ttl {
        Some(t) => lifetime_text(t),
        None => never,
    }
}

/// Every lifetime in `overrides` fits in a `Duration`.
pub open spec fn overrides_fit(overrides: Seq<(Seq<char>, Option<u128>)>) -> bool {
    forall|i: int| 0 <= i < overrides.len() ==> (#[trigger] overrides[i].1 matches Some(t) ==> fits_duration(t))
}

/// The rows of the last look at the settings before they are written: the
/// lifetime of secrets, each override (the first labelled `Except`), how long
/// the daemon idles, the `op` binary and the socket.
pub open spec fn review(
    ttl: Option<u128>,
    overrides: Seq<(Seq<char>, Option<u128>)>,
    idle_timeout: Option<u128>,
    op: Seq<char>,
    socket: Seq<char>,
) -> Seq<(Seq<char>, Seq<char>)> {
    seq![("Secrets live"@, lifetime_or(ttl, "until the daemon exits"@))] + Seq::new(
        overrides.len(),
        |i: int|
            (
                if i == 0 {
                    "Except"@
                } else {
                    ""@
                },
                overrides[i].0 + "  "@ + lifetime_or(overrides[i].1, "until the daemon exits"@),
            ),
    ) + seq![
        ("Daemon idles"@, lifetime_or(idle_timeout, "forever"@)),
        ("op binary"@, op),
        ("Socket"@, socket),
    ]
}

/// Appends the characters of `t` to `s`.
fn push_str(s: &mut String, t: &str)
    ensures
        final(s)@ == old(s)@ + t@,
{
    let chars = chars_of(t);
    let mut i: usize = 0;
    while i < chars.len()
        invariant
            i <= chars@.len(),
            chars@ == t@,
            s@ == old(s)@ + chars@.take(i as int),
        decreases chars@.len() - i,
    {
        push_char(s, chars[i]);
        i = i + 1;
        proof {
            assert(s@ =~= old(s)@ + chars@.take(i as int));
        }
    }
    proof {
        assert(chars@.take(i as int) =~= chars@);
    }
}

/// The rows of the last look at the settings: see [`review`]. `socket` is
/// the socket's path as it is shown.
pub fn review_rows(
    ttl: Option<u128>,
    overrides: &Overrides,
    idle_timeout: Option<u128>,
    op: &str,
    socket: &str,
) -> (result: Vec<(String, String)>)
    requires
        ttl matches Some(t) ==> fits_duration(t),
        idle_timeout matches Some(t) ==> fits_duration(t),
        overrides_fit(overrides@),
    ensures
        result@.len() == review(ttl, overrides@, idle_timeout, op@, socket@).len(),
        forall|i: int|
            0 <= i < result@.len() ==> ((#[trigger] result@[i]).0@, result@[i].1@) == review(
                ttl,
                overrides@,
                idle_timeout,
                op@,
                socket@,
            )[i],
{
    let ghost want = review(ttl, overrides@, idle_timeout, op@, socket@);
    let mut rows: Vec<(String, String)> = Vec::new();
    rows.push(("Secrets live".to_string(), lifetime_default(ttl, "until the daemon exits")));
    let n = overrides.len();
    let mut i: usize = 0;
    while i < n
        invariant
            n == overrides@.len(),
            i <= n,
            overrides_fit(overrides@),
            want == review(ttl, overrides@, idle_timeout, op@, socket@),
            rows@.len() == i + 1,
            forall|j: int| 0 <= j < rows@.len() ==> ((#[trigger] rows@[j]).0@, rows@[j].1@) == want[j],
        decreases n - i,
    {
        let label = if i == 0 {
            "Except".to_string()
        } else {
            "".to_string()
        };
        let mut value = overrides.key_at(i).clone();
        push_str(&mut value, "  ");
        let ttl_text = lifetime_default(*overrides.value_at(i), "until the daemon exits");
        push_str(&mut value, ttl_text.as_str());
        rows.push((label, value));
        proof {
            assert(want[i + 1] == (
                if i == 0 {
                    "Except"@
                } else {
                    ""@
                },
                overrides@[i as int].0 + "  "@ + lifetime_or(overrides@[i as int].1, "until the daemon exits"@),
            ));
        }
        i = i + 1;
    }
    rows.push(("Daemon idles".to_string(), lifetime_default(idle_timeout, "forever")));
    rows.push(("op binary".to_string(), op.to_string()));
    rows.push(("Socket".to_string(), socket.to_string()));
    rows
}

/// A lifetime per reference, in key order: nanoseconds, or none for a secret
/// kept until the daemon exits.
pub type Overrides = KeyedVec<Option<u128>>;

/// The menu's question: whether there are overrides yet decides it.
pub open spec fn menu_question(overrides: Seq<(Seq<char>, Option<u128>)>) -> Seq<char> {
    if overrides.len() == 0 {
        "Should any references live for a different length?"@
    } else {
        "These references have their own lifetime. Anything to change?"@
    }
}

/// What was picked from the menu.
pub enum Pick {
    /// One of the overrides, to change or remove.
    Edit(String),
    /// A new override.
    Add,
    /// Nothing more to change.
    Done,
}

/// What to do with an override that was picked.
#[derive(PartialEq, Eq, Structural, Clone, Copy)]
pub enum Action {
    Change,
    Remove,
    Keep,
}

/// Where the dialog about overrides stands.
pub enum Stage {
    /// At the menu of overrides.
    Menu,
    /// Asking which reference to add.
    NewReference,
    /// Asking how long the new `reference` lives.
    NewLifetime { reference: String },
    /// Asking what to do with the override of `reference`.
    EditAction { reference: String },
    /// Asking how long `reference` lives from now on.
    EditLifetime { reference: String },
    /// Over.
    Finished,
}

/// An answer to the dialog's last question.
pub enum Answer {
    Picked(Pick),
    Reference(String),
    Lifetime(Option<u128>),
    Action(Action),
}

/// The dialog's next question.
pub enum Prompt {
    /// The menu: its question, and the overrides to pick from, in key order;
    /// adding one and being done are always offered too.
    Menu { question: String, items: Vec<(String, Option<u128>)> },
    /// Which reference to add, offering `candidates`.
    Reference { candidates: Vec<String> },
    /// How long a reference lives; `current` is where the question starts.
    Lifetime { current: Option<u128> },
    /// What to do with the override of `reference`.
    Action { reference: String },
    /// The dialog is over.
    Finished,
}

/// `prompt` is the menu for `overrides`.
pub open spec fn is_menu(prompt: Prompt, overrides: Seq<(Seq<char>, Option<u128>)>) -> bool {
    &&& prompt matches Prompt::Menu { question, items }
    &&& question@ == menu_question(overrides)
    &&& items@.len() == overrides.len()
    &&& forall|i: int|
        0 <= i < items@.len() ==> (#[trigger] items@[i]).0@ == overrides[i].0 && items@[i].1
            == overrides[i].1
}

/// The references offered for a new override: the cached ones that have no
/// override yet, in their order.
pub open spec fn candidates(cached: Seq<String>, overrides: Map<Seq<char>, Option<u128>>) -> Seq<String> {
    cached.filter(|r: String| !overrides.contains_key(r@))
}

/// A cached reference is offered for a new override exactly when it has no
/// override of its own, whatever other references (a whole vault, say) have
/// one; nothing else is offered.
pub proof fn law_offered_exactly_without_own_override(
    cached: Seq<String>,
    overrides: Map<Seq<char>, Option<u128>>,
    r: String,
)
    ensures
        cached.contains(r) ==> (candidates(cached, overrides).contains(r) == !overrides.contains_key(r@)),
        candidates(cached, overrides).contains(r) ==> cached.contains(r) && !overrides.contains_key(r@),
{
    let pred = |x: String| !overrides.contains_key(x@);
    if cached.contains(r) {
        let i = choose|i: int| 0 <= i < cached.len() && cached[i] == r;
        if pred(r) {
            cached.lemma_filter_contains(pred, i);
        }
    }
    if candidates(cached, overrides).contains(r) {
        cached.lemma_filter_contains_rev(pred, r);
        let j = choose|j: int|
            0 <= j < cached.filter(pred).len() && cached.filter(pred)[j] == r;
        cached.lemma_filter_pred(pred, j);
    }
}

/// `answer` answers the question the dialog asked at `stage`, and a picked
/// override exists.
pub open spec fn fits(stage: Stage, answer: Answer, overrides: Map<Seq<char>, Option<u128>>) -> bool {
    match stage {
        Stage::Menu => match answer {
            Answer::Picked(Pick::Edit(r)) => overrides.contains_key(r@),
            Answer::Picked(_) => true,
            _ => false,
        },
        Stage::NewReference => answer is Reference,
        Stage::NewLifetime { .. } => answer is Lifetime,
        Stage::EditAction { reference } => answer is Action && overrides.contains_key(reference@),
        Stage::EditLifetime { .. } => answer is Lifetime,
        Stage::Finished => false,
    }
}

/// The dialog of `op-cache config` about per-reference lifetimes.
pub struct OverridesDialog {
    pub overrides: Overrides,
    /// The references the daemon holds secrets for, offered when adding.
    pub cached: Vec<String>,
    pub stage: Stage,
}

/// The cached references that have no override yet.
pub fn add_candidates(cached: &Vec<String>, overrides: &Overrides) -> (result: Vec<String>)
    ensures
        result@ == candidates(cached@, overrides.as_map()),
{
    let mut result: Vec<String> = Vec::new();
    let mut i: usize = 0;
    let ghost pred = |r: String| !overrides.as_map().contains_key(r@);
    proof {
        assert(cached@.take(0) =~= Seq::<String>::empty());
        assert(Seq::<String>::empty().filter(pred) =~= Seq::<String>::empty());
    }
    while i < cached.len()
        invariant
            i <= cached@.len(),
            pred == (|r: String| !overrides.as_map().contains_key(r@)),
            result@ == cached@.take(i as int).filter(pred),
        decreases cached@.len() - i,
    {
        proof {
            assert(cached@.take(i + 1) =~= cached@.take(i as int).push(cached@[i as int]));
            cached@.take(i as int).lemma_filter_push(cached@[i as int], pred);
        }
        if overrides.find(cached[i].as_str()).is_none() {
            result.push(cached[i].clone());
        }
        i = i + 1;
    }
    proof {
        assert(cached@.take(i as int) =~= cached@);
    }
    result
}

/// The menu for `overrides`.
fn menu(overrides: &Overrides) -> (result: Prompt)
    ensures
        is_menu(result, overrides@),
{
    let question = if overrides.len() == 0 {
        "Should any references live for a different length?".to_string()
    } else {
        "These references have their own lifetime. Anything to change?".to_string()
    };
    let mut items: Vec<(String, Option<u128>)> = Vec::new();
    let mut i: usize = 0;
    while i < overrides.len()
        invariant
            i <= overrides@.len(),
            items@.len() == i,
            forall|j: int|
                0 <= j < i ==> (#[trigger] items@[j]).0@ == overrides@[j].0 && items@[j].1
                    == overrides@[j].1,
        decreases overrides@.len() - i,
    {
        items.push((overrides.key_at(i).clone(), *overrides.value_at(i)));
        i = i + 1;
    }
    Prompt::Menu { question, items }
}

impl OverridesDialog {
    /// Starts the dialog at its menu.
    pub fn new(overrides: Overrides, cached: Vec<String>) -> (result: (Self, Prompt))
        ensures
            result.0.overrides@ == overrides@,
            result.0.cached@ == cached@,
            result.0.stage is Menu,
            is_menu(result.1, overrides@),
    {
        let prompt = menu(&overrides);
        (OverridesDialog { overrides, cached, stage: Stage::Menu }, prompt)
    }

    /// Takes the answer to the last question and asks the next one.
    pub fn answer(&mut self, answer: Answer) -> (result: Prompt)
        requires
            fits(old(self).stage, answer, old(self).overrides.as_map()),
        ensures
            final(self).cached@ == old(self).cached@,
            ({
                let before = old(self).overrides;
                let after = final(self).overrides;
                match (old(self).stage, answer) {
                    (Stage::Menu, Answer::Picked(Pick::Done)) => {
                        &&& after@ == before@
                        &&& final(self).stage is Finished
                        &&& result is Finished
                    },
                    (Stage::Menu, Answer::Picked(Pick::Add)) => {
                        &&& after@ == before@
                        &&& final(self).stage is NewReference
                        &&& result matches Prompt::Reference { candidates: c }
                        &&& c@ == candidates(old(self).cached@, before.as_map())
                    },
                    (Stage::Menu, Answer::Picked(Pick::Edit(r))) => {
                        &&& after@ == before@
                        &&& final(self).stage matches Stage::EditAction { reference }
                        &&& reference@ == r@
                        &&& result matches Prompt::Action { reference: shown }
                        &&& shown@ == r@
                    },
                    (Stage::NewReference, Answer::Reference(r)) => {
                        &&& after@ == before@
                        &&& final(self).stage matches Stage::NewLifetime { reference }
                        &&& reference@ == r@
                        &&& result matches Prompt::Lifetime { current }
                        &&& current is None
                    },
                    (Stage::NewLifetime { reference }, Answer::Lifetime(t)) => {
                        &&& after.as_map() == before.as_map().insert(reference@, t)
                        &&& final(self).stage is Menu
                        &&& is_menu(result, after@)
                    },
                    (Stage::EditAction { reference }, Answer::Action(Action::Change)) => {
                        &&& after@ == before@
                        &&& final(self).stage matches Stage::EditLifetime { reference: r }
                        &&& r@ == reference@
                        &&& result matches Prompt::Lifetime { current }
                        &&& current == before.as_map()[reference@]
                    },
                    (Stage::EditAction { reference }, Answer::Action(Action::Remove)) => {
                        &&& after.as_map() == before.as_map().remove(reference@)
                        &&& final(self).stage is Menu
                        &&& is_menu(result, after@)
                    },
                    (Stage::EditAction { reference }, Answer::Action(Action::Keep)) => {
                        &&& after@ == before@
                        &&& final(self).stage is Menu
                        &&& is_menu(result, after@)
                    },
                    (Stage::EditLifetime { reference }, Answer::Lifetime(t)) => {
                        &&& after.as_map() == before.as_map().insert(reference@, t)
                        &&& final(self).stage is Menu
                        &&& is_menu(result, after@)
                    },
                    _ => false,
                }
            }),
    {
        let mut stage = Stage::Finished;
        std::mem::swap(&mut stage, &mut self.stage);
        match (stage, answer) {
            (Stage::Menu, Answer::Picked(Pick::Done)) => Prompt::Finished,
            (Stage::Menu, Answer::Picked(Pick::Add)) => {
                self.stage = Stage::NewReference;
                Prompt::Reference { candidates: add_candidates(&self.cached, &self.overrides) }
            },
            (Stage::Menu, Answer::Picked(Pick::Edit(reference))) => {
                let shown = reference.clone();
                self.stage = Stage::EditAction { reference };
                Prompt::Action { reference: shown }
            },
            (Stage::NewReference, Answer::Reference(reference)) => {
                self.stage = Stage::NewLifetime { reference };
                Prompt::Lifetime { current: None }
            },
            (Stage::NewLifetime { reference }, Answer::Lifetime(t)) => {
                self.overrides.insert(reference, t);
                self.stage = Stage::Menu;
                menu(&self.overrides)
            },
            (Stage::EditAction { reference }, Answer::Action(Action::Change)) => {
                let i = self.overrides.find(reference.as_str());
                proof {
                    use_type_invariant(&self.overrides);
                }
                let current = match i {
                    Some(i) => {
                        proof {
                            crate::keyed::lemma_pairs_to_map_at(self.overrides@, i as int);
                        }
                        *self.overrides.value_at(i)
                    },
                    None => None,
                };
                self.stage = Stage::EditLifetime { reference };
                Prompt::Lifetime { current }
            },
            (Stage::EditAction { reference }, Answer::Action(Action::Remove)) => {
                self.overrides.remove(reference.as_str());
                self.stage = Stage::Menu;
                menu(&self.overrides)
            },
            (Stage::EditAction { reference }, Answer::Action(Action::Keep)) => {
                self.stage = Stage::Menu;
                menu(&self.overrides)
            },
            (Stage::EditLifetime { reference }, Answer::Lifetime(t)) => {
                self.overrides.insert(reference, t);
                self.stage = Stage::Menu;
                menu(&self.overrides)
            },
            (stage, _) => {
                self.stage = stage;
                Prompt::Finished
            },
        }
    }
}

} // verus!
