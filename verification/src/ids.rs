//! Deterministic entity IDs: a physical thing at the same position
//! keeps its ID across rebuilds, so re-importing an unchanged capture
//! is a no-op against the store.
//!
//! Positional IDs hash the *source* and the position as rendered to
//! 0.1 m, so jitter below sensor precision does not mint new identities.
//! Named entities use a slug of their name.

use vstd::prelude::*;
use vstd::std_specs::iter::IteratorSpec;

use vstd::utf8::encode_utf8;

use crate::text::{hex_char, hex_fixed, push_char, push_hex_fixed, push_text};

verus! {

/// The FNV-1a 64-bit offset basis.
pub const FNV_OFFSET: u64 = 0xcbf2_9ce4_8422_2325;

/// The FNV-1a 64-bit prime.
pub const FNV_PRIME: u64 = 0x0000_0100_0000_01b3;

/// FNV-1a over a byte string: start at the offset basis; for each byte,
/// xor it in and multiply by the prime modulo 2^64.
pub open spec fn fnv1a_spec(bytes: Seq<u8>) -> u64
    decreases bytes.len(),
{
    if bytes.len() == 0 {
        FNV_OFFSET
    } else {
        let h = fnv1a_spec(bytes.drop_last()) ^ (bytes.last() as u64);
        ((h as nat * FNV_PRIME as nat) % 0x1_0000_0000_0000_0000) as u64
    }
}

/// FNV-1a 64-bit — tiny, dependency-free, and stable across platforms.
pub fn fnv1a(bytes: &[u8]) -> (hash: u64)
    ensures
        hash == fnv1a_spec(bytes@),
{
    let mut hash: u64 = FNV_OFFSET;
    let mut i: usize = 0;
    while i < bytes.len()
        invariant
            i <= bytes@.len(),
            hash == fnv1a_spec(bytes@.take(i as int)),
        decreases bytes@.len() - i,
    {
        assert(bytes@.take(i + 1).drop_last() =~= bytes@.take(i as int));
        hash = hash ^ (bytes[i] as u64);
        hash = hash.wrapping_mul(FNV_PRIME);
        i = i + 1;
    }
    assert(bytes@.take(i as int) =~= bytes@);
    hash
}

/// ASCII letters and digits.
pub open spec fn is_ascii_alnum(c: char) -> bool {
    ('a' <= c && c <= 'z') || ('A' <= c && c <= 'Z') || ('0' <= c && c <= '9')
}

/// ASCII upper-case letters lowered; every other character unchanged.
pub open spec fn ascii_lower(c: char) -> char {
    if 'A' <= c && c <= 'Z' {
        ((c as u32) + 32) as char
    } else {
        c
    }
}

/// The slug of `name` before trailing separators are trimmed, and
/// whether it currently ends in (or has not yet begun after) a
/// separator: ASCII alphanumerics are kept lower-cased, and every run
/// of other characters becomes one `'_'` (dropped at the start).
pub open spec fn slug_scan(name: Seq<char>) -> (Seq<char>, bool)
    decreases name.len(),
{
    if name.len() == 0 {
        (seq![], true)
    } else {
        let (s, sep) = slug_scan(name.drop_last());
        let c = name.last();
        if is_ascii_alnum(c) {
            (s.push(ascii_lower(c)), false)
        } else if !sep {
            (s.push('_'), true)
        } else {
            (s, sep)
        }
    }
}

/// `s` without its trailing `'_'` characters.
pub open spec fn trim_trailing_underscores(s: Seq<char>) -> Seq<char>
    decreases s.len(),
{
    if s.len() > 0 && s.last() == '_' {
        trim_trailing_underscores(s.drop_last())
    } else {
        s
    }
}

/// The slug of a name: lower-cased ASCII alphanumeric runs joined by
/// single underscores.
pub open spec fn slug(name: Seq<char>) -> Seq<char> {
    trim_trailing_underscores(slug_scan(name).0)
}

fn is_alnum(c: char) -> (r: bool)
    ensures
        r == is_ascii_alnum(c),
{
    ('a' <= c && c <= 'z') || ('A' <= c && c <= 'Z') || ('0' <= c && c <= '9')
}

fn lower(c: char) -> (r: char)
    ensures
        r == ascii_lower(c),
{
    if 'A' <= c && c <= 'Z' {
        (((c as u32) + 32) as u8) as char
    } else {
        c
    }
}

/// Natural-key ID for named entities (zones, devices):
/// `"<kind>:<slug>"` with the slug lowercased and non-alphanumerics
/// collapsed to single underscores.
pub fn named_entity_id(kind: &str, name: &str) -> (id: String)
    ensures
        id@ == kind@ + seq![':'] + slug(name@),
{
    let mut slug_chars: Vec<char> = Vec::new();
    let mut last_sep = true;
    let ghost chars = name@;
    let mut it = name.chars();
    let ghost mut seen: Seq<char> = seq![];
    loop
        invariant
            chars == name@,
            it.remaining() =~= chars.skip(seen.len() as int),
            seen =~= chars.take(seen.len() as int),
            seen.len() <= chars.len(),
            (slug_chars@, last_sep) == slug_scan(seen),
        ensures
            slug_chars@ == slug_scan(name@).0,
        decreases chars.len() - seen.len(),
    {
        match it.next() {
            None => {
                assert(seen =~= chars);
                break;
            },
            Some(c) => {
                proof {
                    assert(seen.push(c).drop_last() =~= seen);
                    seen = seen.push(c);
                }
                if is_alnum(c) {
                    slug_chars.push(lower(c));
                    last_sep = false;
                } else if !last_sep {
                    slug_chars.push('_');
                    last_sep = true;
                }
            },
        }
    }
    let ghost scanned = slug_chars@;
    while slug_chars.len() > 0 && slug_chars[slug_chars.len() - 1] == '_'
        invariant
            trim_trailing_underscores(slug_chars@) == trim_trailing_underscores(scanned),
        decreases slug_chars.len(),
    {
        slug_chars.pop();
    }
    assert(trim_trailing_underscores(slug_chars@) == slug_chars@);
    assert(slug(name@) == slug_chars@);
    let mut id = String::new();
    push_text(&mut id, kind);
    push_char(&mut id, ':');
    let ghost before = id@;
    let mut i: usize = 0;
    while i < slug_chars.len()
        invariant
            i <= slug_chars@.len(),
            id@ =~= before + slug_chars@.take(i as int),
        decreases slug_chars@.len() - i,
    {
        push_char(&mut id, slug_chars[i]);
        assert(slug_chars@.take(i + 1) =~= slug_chars@.take(i as int).push(slug_chars@[i as int]));
        i = i + 1;
    }
    assert(slug_chars@.take(i as int) =~= slug_chars@);
    id
}

/// The hashed key of a positional entity: `"{source}|{x}|{y}"`, where
/// `x` and `y` are the coordinates in metres rendered with one decimal
/// place (`{:.1}` of the float, done where the floats live).
pub open spec fn positional_key(source: Seq<char>, x: Seq<char>, y: Seq<char>) -> Seq<char> {
    source + seq!['|'] + x + seq!['|'] + y
}

/// The positional ID of an entity of `kind` seen by `source` at the
/// rendered coordinates (`x`, `y`): the kind, a colon, and the low 48
/// bits of the FNV-1a hash of the UTF-8 key as 12 lower-case hex digits.
pub open spec fn positional_id(kind: Seq<char>, source: Seq<char>, x: Seq<char>, y: Seq<char>) -> Seq<char> {
    let hash = fnv1a_spec(encode_utf8(positional_key(source, x, y)));
    kind + seq![':'] + hex_fixed(hash as nat % 0x1_0000_0000_0000, 12)
}

/// Deterministic ID for a positional entity:
/// `"<kind>:" + hex12(fnv1a("{source}|{x}|{y}"))`, where `x` and `y`
/// are the position in metres as `{:.1}` renders them, so positions
/// that render alike share an id.
pub fn positional_entity_id(kind: &str, source: &str, x: &str, y: &str) -> (id: String)
    ensures
        id@ == positional_id(kind@, source@, x@, y@),
{
    let mut key = String::new();
    push_text(&mut key, source);
    push_char(&mut key, '|');
    push_text(&mut key, x);
    push_char(&mut key, '|');
    push_text(&mut key, y);
    assert(key@ =~= positional_key(source@, x@, y@));
    let hash = fnv1a(key.as_str().as_bytes());
    let low = hash & 0xffff_ffff_ffff;
    assert(hash & 0xffff_ffff_ffff == hash % 0x1_0000_0000_0000) by (bit_vector);
    let mut id = String::new();
    push_text(&mut id, kind);
    push_char(&mut id, ':');
    push_hex_fixed(&mut id, low, 12);
    assert(id@ =~= positional_id(kind@, source@, x@, y@));
    id
}

/// A lower-case hexadecimal digit.
pub open spec fn is_hex_char(c: char) -> bool {
    ('0' <= c && c <= '9') || ('a' <= c && c <= 'f')
}

proof fn lemma_hex_fixed_shape(n: nat, width: nat)
    ensures
        hex_fixed(n, width).len() == width,
        forall|i: int| 0 <= i < width ==> is_hex_char(#[trigger] hex_fixed(n, width)[i]),
    decreases width,
{
    if width > 0 {
        lemma_hex_fixed_shape(n / 16, (width - 1) as nat);
        let d = n % 16;
        assert(is_hex_char(hex_char(d))) by {
            if d < 10 {
                assert(((d + 48) as u8) as char == ((d + 48) as char));
            }
        }
    }
}

/// A character a slug keeps: a lower-case ASCII letter or a digit.
pub open spec fn slug_char(c: char) -> bool {
    ('a' <= c && c <= 'z') || ('0' <= c && c <= '9')
}

/// `s` could be the start of a slug: slug characters and single
/// underscores, not starting with an underscore.
pub open spec fn slug_prefix(s: Seq<char>) -> bool {
    &&& forall|i: int| 0 <= i < s.len() ==> slug_char(#[trigger] s[i]) || s[i] == '_'
    &&& s.len() > 0 ==> s[0] != '_'
    &&& forall|i: int| 0 <= i < s.len() - 1 ==> !(#[trigger] s[i] == '_' && s[i + 1] == '_')
}

/// `s` is a slug: a slug prefix that does not end with an underscore.
pub open spec fn is_slug(s: Seq<char>) -> bool {
    slug_prefix(s) && (s.len() > 0 ==> s.last() != '_')
}

proof fn lemma_slug_scan_shape(name: Seq<char>)
    ensures
        slug_prefix(slug_scan(name).0),
        slug_scan(name).1 <==> (slug_scan(name).0.len() == 0 || slug_scan(name).0.last() == '_'),
    decreases name.len(),
{
    if name.len() > 0 {
        lemma_slug_scan_shape(name.drop_last());
        let (s, sep) = slug_scan(name.drop_last());
        let (t, _) = slug_scan(name);
        assert forall|i: int| 0 <= i < t.len() - 1 implies !(#[trigger] t[i] == '_' && t[i + 1] == '_') by {
            if i < s.len() - 1 {
                assert(t[i] == s[i] && t[i + 1] == s[i + 1]);
            }
        }
    }
}

proof fn lemma_trim_of_prefix(s: Seq<char>)
    requires
        slug_prefix(s),
    ensures
        is_slug(trim_trailing_underscores(s)),
    decreases s.len(),
{
    if s.len() > 0 && s.last() == '_' {
        let d = s.drop_last();
        assert forall|i: int| 0 <= i < d.len() - 1 implies !(#[trigger] d[i] == '_' && d[i + 1] == '_') by {
            assert(d[i] == s[i] && d[i + 1] == s[i + 1]);
        }
        assert forall|i: int| 0 <= i < d.len() implies slug_char(#[trigger] d[i]) || d[i] == '_' by {
            assert(d[i] == s[i]);
        }
        lemma_trim_of_prefix(d);
    }
}

/// Scanning a slug prefix gives it back unchanged.
proof fn lemma_slug_scan_fixed(s: Seq<char>)
    requires
        slug_prefix(s),
    ensures
        slug_scan(s).0 == s,
        slug_scan(s).1 <==> (s.len() == 0 || s.last() == '_'),
    decreases s.len(),
{
    if s.len() > 0 {
        let d = s.drop_last();
        assert forall|i: int| 0 <= i < d.len() - 1 implies !(#[trigger] d[i] == '_' && d[i + 1] == '_') by {
            assert(d[i] == s[i] && d[i + 1] == s[i + 1]);
        }
        assert forall|i: int| 0 <= i < d.len() implies slug_char(#[trigger] d[i]) || d[i] == '_' by {
            assert(d[i] == s[i]);
        }
        lemma_slug_scan_fixed(d);
        if s.last() == '_' && d.len() > 0 {
            assert(!(s[d.len() - 1] == '_' && s[d.len() as int] == '_'));
        }
        assert(d.push(s.last()) =~= s);
    }
}

/// One step of the slug scan: the state after reading `c`.
pub open spec fn scan_step(st: (Seq<char>, bool), c: char) -> (Seq<char>, bool) {
    if is_ascii_alnum(c) {
        (st.0.push(ascii_lower(c)), false)
    } else if !st.1 {
        (st.0.push('_'), true)
    } else {
        st
    }
}

/// The slug scan of `name` continued from the state `st`.
pub open spec fn scan_from(st: (Seq<char>, bool), name: Seq<char>) -> (Seq<char>, bool)
    decreases name.len(),
{
    if name.len() == 0 {
        st
    } else {
        scan_step(scan_from(st, name.drop_last()), name.last())
    }
}

/// Every character of `s` separates words (is not an ASCII letter or
/// digit).
pub open spec fn all_separators(s: Seq<char>) -> bool {
    forall|i: int| 0 <= i < s.len() ==> !is_ascii_alnum(#[trigger] s[i])
}

/// The scan state once a run of separators has been read.
pub open spec fn after_separators(st: (Seq<char>, bool)) -> (Seq<char>, bool) {
    if st.1 {
        st
    } else {
        (st.0.push('_'), true)
    }
}

proof fn lemma_scan_from_start(name: Seq<char>)
    ensures
        slug_scan(name) == scan_from((seq![], true), name),
    decreases name.len(),
{
    if name.len() > 0 {
        lemma_scan_from_start(name.drop_last());
    }
}

proof fn lemma_scan_from_concat(st: (Seq<char>, bool), a: Seq<char>, b: Seq<char>)
    ensures
        scan_from(st, a + b) == scan_from(scan_from(st, a), b),
    decreases b.len(),
{
    if b.len() == 0 {
        assert(a + b =~= a);
    } else {
        assert((a + b).drop_last() =~= a + b.drop_last());
        assert((a + b).last() == b.last());
        lemma_scan_from_concat(st, a, b.drop_last());
    }
}

proof fn lemma_scan_separators(st: (Seq<char>, bool), s: Seq<char>)
    requires
        all_separators(s),
        s.len() > 0,
    ensures
        scan_from(st, s) == after_separators(st),
    decreases s.len(),
{
    assert(!is_ascii_alnum(s[s.len() - 1]));
    if s.len() > 1 {
        let d = s.drop_last();
        assert forall|i: int| 0 <= i < d.len() implies !is_ascii_alnum(#[trigger] d[i]) by {
            assert(d[i] == s[i]);
        }
        lemma_scan_separators(st, d);
        assert(scan_from(st, s) == scan_step(scan_from(st, d), s.last()));
    } else {
        assert(scan_from(st, s.drop_last()) == st);
        assert(scan_from(st, s) == scan_step(st, s.last()));
    }
}

proof fn lemma_ascii_lower_same_class(a: char, b: char)
    requires
        ascii_lower(a) == ascii_lower(b),
    ensures
        is_ascii_alnum(a) == is_ascii_alnum(b),
{
}

proof fn lemma_scan_ignores_case(n1: Seq<char>, n2: Seq<char>)
    requires
        n1.len() == n2.len(),
        forall|i: int| 0 <= i < n1.len() ==> ascii_lower(#[trigger] n1[i]) == ascii_lower(n2[i]),
    ensures
        slug_scan(n1) == slug_scan(n2),
    decreases n1.len(),
{
    if n1.len() > 0 {
        let (d1, d2) = (n1.drop_last(), n2.drop_last());
        assert forall|i: int| 0 <= i < d1.len() implies ascii_lower(#[trigger] d1[i]) == ascii_lower(d2[i]) by {
            assert(d1[i] == n1[i] && d2[i] == n2[i]);
        }
        lemma_scan_ignores_case(d1, d2);
        assert(ascii_lower(n1[n1.len() - 1]) == ascii_lower(n2[n2.len() - 1]));
        lemma_ascii_lower_same_class(n1.last(), n2.last());
    }
}

/// ASCII case never changes a named id: names that agree once ASCII
/// letters are lowered have the same slug.
pub proof fn law_slug_ignores_ascii_case(n1: Seq<char>, n2: Seq<char>)
    requires
        n1.len() == n2.len(),
        forall|i: int| 0 <= i < n1.len() ==> ascii_lower(#[trigger] n1[i]) == ascii_lower(n2[i]),
    ensures
        slug(n1) == slug(n2),
{
    lemma_scan_ignores_case(n1, n2);
}

/// The length and content of a run of separators never change a named
/// id: any two non-empty runs between the same text give the same slug.
pub proof fn law_slug_separator_runs(a: Seq<char>, s1: Seq<char>, s2: Seq<char>, b: Seq<char>)
    requires
        all_separators(s1),
        all_separators(s2),
        s1.len() > 0,
        s2.len() > 0,
    ensures
        slug(a + s1 + b) == slug(a + s2 + b),
{
    let init: (Seq<char>, bool) = (seq![], true);
    lemma_scan_from_start(a + s1 + b);
    lemma_scan_from_start(a + s2 + b);
    lemma_scan_from_concat(init, a + s1, b);
    lemma_scan_from_concat(init, a + s2, b);
    lemma_scan_from_concat(init, a, s1);
    lemma_scan_from_concat(init, a, s2);
    lemma_scan_separators(scan_from(init, a), s1);
    lemma_scan_separators(scan_from(init, a), s2);
}

/// Separators before and after a name never change its id.
pub proof fn law_slug_ignores_edge_separators(s1: Seq<char>, n: Seq<char>, s2: Seq<char>)
    requires
        all_separators(s1),
        all_separators(s2),
    ensures
        slug(s1 + n + s2) == slug(n),
{
    let init: (Seq<char>, bool) = (seq![], true);
    lemma_scan_from_start(s1 + n);
    lemma_scan_from_start(n);
    lemma_scan_from_concat(init, s1, n);
    if s1.len() > 0 {
        lemma_scan_separators(init, s1);
    } else {
        assert(s1 =~= Seq::<char>::empty());
    }
    assert(slug_scan(s1 + n) == slug_scan(n));
    if s2.len() > 0 {
        lemma_scan_from_start(s1 + n + s2);
        lemma_scan_from_concat(init, s1 + n, s2);
        lemma_scan_separators(scan_from(init, s1 + n), s2);
        let st = slug_scan(s1 + n);
        if !st.1 {
            assert(st.0.push('_').drop_last() =~= st.0);
        }
    } else {
        assert(s1 + n + s2 =~= s1 + n);
    }
}

/// Named ids are canonical: a slug holds only lower-case ASCII letters,
/// digits and single underscores, never at either end, and slugging a
/// slug gives it back — so re-deriving an id from its own slug is a
/// no-op.
pub proof fn law_slug_canonical(name: Seq<char>)
    ensures
        is_slug(slug(name)),
        slug(slug(name)) == slug(name),
{
    lemma_slug_scan_shape(name);
    lemma_trim_of_prefix(slug_scan(name).0);
    let t = slug(name);
    lemma_slug_scan_fixed(t);
}

/// A positional id is its kind, a colon and exactly 12 lower-case hex
/// digits, whatever the source and position.
pub proof fn law_positional_id_shape(kind: Seq<char>, source: Seq<char>, x: Seq<char>, y: Seq<char>)
    ensures
        positional_id(kind, source, x, y).len() == kind.len() + 13,
        positional_id(kind, source, x, y).subrange(0, kind.len() + 1int) == kind + seq![':'],
        forall|i: int|
            kind.len() + 1 <= i < kind.len() + 13 ==> is_hex_char(#[trigger] positional_id(kind, source, x, y)[i]),
{
    let hash = fnv1a_spec(encode_utf8(positional_key(source, x, y)));
    let h = hex_fixed(hash as nat % 0x1_0000_0000_0000, 12);
    lemma_hex_fixed_shape(hash as nat % 0x1_0000_0000_0000, 12);
    let id = positional_id(kind, source, x, y);
    assert(id == kind + seq![':'] + h);
    assert(id.subrange(0, kind.len() + 1int) =~= kind + seq![':']);
    assert forall|i: int| kind.len() + 1 <= i < kind.len() + 13 implies is_hex_char(#[trigger] id[i]) by {
        assert(id[i] == h[i - kind.len() - 1]);
    }
}

} // verus!
