//! The skip layer (whitespace and comments) and the token scanner.
use vstd::prelude::*;

verus! {

broadcast use vstd::array::group_array_axioms;

/// The bytes that make up a run of whitespace.
pub open spec fn is_space_byte(b: u8) -> bool {
    b == 0x20u8 || b == 0x09u8 || b == 0x0au8 || b == 0x0du8
}

/// The bytes of a word: ASCII letters, digits and `.`.
pub open spec fn is_word_byte(b: u8) -> bool {
    (0x61u8 <= b && b <= 0x7au8) || (0x41u8 <= b && b <= 0x5au8) || (0x30u8 <= b && b <= 0x39u8)
        || b == 0x2eu8
}

/// The kinds of byte runs the scanner measures.
#[derive(Clone, Copy, PartialEq, Eq, Structural)]
pub enum Run {
    Space,
    Word,
    Semicolon,
}

pub open spec fn in_run(b: u8, k: Run) -> bool {
    match k {
        Run::Space => is_space_byte(b),
        Run::Word => is_word_byte(b),
        Run::Semicolon => b == 0x3bu8,
    }
}

/// `t` occurs in `s` at position `p`.
pub open spec fn has_tag(s: Seq<u8>, p: int, t: Seq<u8>) -> bool {
    0 <= p && p + t.len() <= s.len() && s.subrange(p, p + t.len()) == t
}

/// The end of the longest run of bytes of kind `k` that starts at `p`.
pub open spec fn run_end(s: Seq<u8>, p: int, k: Run) -> int
    decreases s.len() - p,
{
    if 0 <= p < s.len() && in_run(s[p], k) {
        run_end(s, p + 1, k)
    } else {
        p
    }
}

/// The first position at or after `p` where `t` occurs in `s`.
pub open spec fn find_from(s: Seq<u8>, p: int, t: Seq<u8>) -> Option<int>
    decreases s.len() - p,
{
    if p < 0 || p >= s.len() || p + t.len() > s.len() {
        None
    } else if has_tag(s, p, t) {
        Some(p)
    } else {
        find_from(s, p + 1, t)
    }
}

pub open spec fn slash_slash() -> Seq<u8> {
    seq![0x2fu8, 0x2fu8]
}

pub open spec fn slash_star() -> Seq<u8> {
    seq![0x2fu8, 0x2au8]
}

pub open spec fn star_slash() -> Seq<u8> {
    seq![0x2au8, 0x2fu8]
}

pub open spec fn newline() -> Seq<u8> {
    seq![0x0au8]
}

/// One skip unit at `p`: a run of whitespace, a line comment up to and
/// including its newline, or a block comment up to and including the first
/// `*/`. `None` where none starts at `p`, or where a comment is not closed.
pub open spec fn skip_one(s: Seq<u8>, p: int) -> Option<int> {
    if 0 <= p < s.len() && is_space_byte(s[p]) {
        Some(run_end(s, p, Run::Space))
    } else if has_tag(s, p, slash_slash()) {
        match find_from(s, p + 2, newline()) {
            Some(i) => Some(i + 1),
            None => None,
        }
    } else if has_tag(s, p, slash_star()) {
        match find_from(s, p + 2, star_slash()) {
            Some(i) => Some(i + 2),
            None => None,
        }
    } else {
        None
    }
}

/// Where a comment opens at `p` and the input ends before it is closed.
pub open spec fn unclosed_comment(s: Seq<u8>, p: int) -> bool {
    (has_tag(s, p, slash_slash()) && find_from(s, p + 2, newline()) is None) || (has_tag(
        s,
        p,
        slash_star(),
    ) && find_from(s, p + 2, star_slash()) is None)
}

/// The position after zero or more skip units from `p`.
pub open spec fn skip_many(s: Seq<u8>, p: int) -> int
    decreases s.len() - p,
{
    match skip_one(s, p) {
        Some(q) => if p < q <= s.len() {
            skip_many(s, q)
        } else {
            p
        },
        None => p,
    }
}

/// The position after one or more skip units from `p`.
pub open spec fn skip_some(s: Seq<u8>, p: int) -> Option<int> {
    if skip_one(s, p) is Some {
        Some(skip_many(s, p))
    } else {
        None
    }
}

/// The end of the word that starts at `p`; a word is never empty.
pub open spec fn word_at(s: Seq<u8>, p: int) -> Option<int> {
    let e = run_end(s, p, Run::Word);
    if e > p {
        Some(e)
    } else {
        None
    }
}

/// The bytes of `s` from `a` to `b`, read as ASCII characters.
pub open spec fn ascii_text(s: Seq<u8>, a: int, b: int) -> Seq<char> {
    s.subrange(a, b).map_values(|x: u8| (x as u32) as char)
}

/// What a lossy UTF-8 decoding makes of a byte sequence.
pub uninterp spec fn lossy_of(b: Seq<u8>) -> Seq<char>;

/// Relies on `String::from_utf8_lossy`: the bytes decoded as UTF-8, with
/// invalid sequences replaced; ASCII bytes come out as the same characters.
#[verifier::external_body]
pub(crate) fn lossy_text(s: &[u8], a: usize, b: usize) -> (r: String)
    requires
        a <= b <= s@.len(),
    ensures
        r@ == lossy_of(s@.subrange(a as int, b as int)),
        (forall|i: int| a <= i < b ==> s@[i] < 0x80u8) ==> r@ == ascii_text(s@, a as int, b as int),
{
    String::from_utf8_lossy(&s[a..b]).into_owned()
}

/// Whether `b` may stand in a word.
pub fn is_word(b: u8) -> (r: bool)
    ensures
        r == is_word_byte(b),
{
    (0x61u8 <= b && b <= 0x7au8) || (0x41u8 <= b && b <= 0x5au8) || (0x30u8 <= b && b <= 0x39u8)
        || b == 0x2eu8
}

pub fn in_run_exec(b: u8, k: Run) -> (r: bool)
    ensures
        r == in_run(b, k),
{
    match k {
        Run::Space => b == 0x20u8 || b == 0x09u8 || b == 0x0au8 || b == 0x0du8,
        Run::Word => is_word(b),
        Run::Semicolon => b == 0x3bu8,
    }
}

/// Whether `t` occurs in `s` at `p`.
pub fn tag_at(s: &[u8], p: usize, t: &[u8]) -> (r: bool)
    ensures
        r == has_tag(s@, p as int, t@),
{
    if t.len() > s.len() || p > s.len() - t.len() {
        return false;
    }
    let mut j: usize = 0;
    while j < t.len()
        invariant
            p + t@.len() <= s@.len() <= usize::MAX,
            j <= t@.len(),
            forall|k: int| 0 <= k < j ==> s@[p + k] == t@[k],
        decreases t@.len() - j,
    {
        assert(p + j < s@.len());
        if s[p + j] != t[j] {
            assert(s@.subrange(p as int, p + t@.len())[j as int] != t@[j as int]);
            return false;
        }
        j += 1;
    }
    assert(s@.subrange(p as int, p + t@.len()) =~= t@);
    true
}

/// The end of the run of bytes of kind `k` that starts at `p`.
pub fn run_end_exec(s: &[u8], p: usize, k: Run) -> (r: usize)
    requires
        p <= s@.len(),
    ensures
        r as int == run_end(s@, p as int, k),
        p <= r <= s@.len(),
{
    let mut i: usize = p;
    while i < s.len() && in_run_exec(s[i], k)
        invariant
            p <= i <= s@.len(),
            run_end(s@, i as int, k) == run_end(s@, p as int, k),
        decreases s@.len() - i,
    {
        i += 1;
    }
    i
}

/// The first occurrence of `t` in `s` at or after `p`.
pub fn find_exec(s: &[u8], p: usize, t: &[u8]) -> (r: Option<usize>)
    requires
        p <= s@.len(),
        t@.len() > 0,
    ensures
        r matches Some(i) ==> find_from(s@, p as int, t@) == Some(i as int) && p <= i && i
            + t@.len() <= s@.len(),
        r is None ==> find_from(s@, p as int, t@) is None,
{
    let mut i: usize = p;
    while i < s.len() && t.len() <= s.len() - i
        invariant
            p <= i <= s@.len(),
            t@.len() > 0,
            find_from(s@, i as int, t@) == find_from(s@, p as int, t@),
        decreases s@.len() + 1 - i,
    {
        if tag_at(s, i, t) {
            return Some(i);
        }
        i += 1;
    }
    None
}

/// One skip unit at `p`, as `skip_one` says.
pub fn skip_one_exec(s: &[u8], p: usize) -> (r: Option<usize>)
    requires
        p <= s@.len(),
    ensures
        r matches Some(q) ==> skip_one(s@, p as int) == Some(q as int) && p < q <= s@.len(),
        r is None ==> skip_one(s@, p as int) is None,
{
    if p < s.len() && in_run_exec(s[p], Run::Space) {
        proof {
            lemma_run_bytes(s@, p + 1, Run::Space);
        }
        return Some(run_end_exec(s, p, Run::Space));
    }
    let ss: [u8; 2] = [0x2fu8, 0x2fu8];
    let nl: [u8; 1] = [0x0au8];
    let sst: [u8; 2] = [0x2fu8, 0x2au8];
    let sts: [u8; 2] = [0x2au8, 0x2fu8];
    assert(ss@ =~= slash_slash());
    assert(nl@ =~= newline());
    assert(sst@ =~= slash_star());
    assert(sts@ =~= star_slash());
    if tag_at(s, p, ss.as_slice()) {
        match find_exec(s, p + 2, nl.as_slice()) {
            Some(i) => Some(i + 1),
            None => None,
        }
    } else if tag_at(s, p, sst.as_slice()) {
        match find_exec(s, p + 2, sts.as_slice()) {
            Some(i) => Some(i + 2),
            None => None,
        }
    } else {
        None
    }
}

/// Whether a comment that is never closed opens at `p`.
pub fn unclosed_comment_exec(s: &[u8], p: usize) -> (r: bool)
    requires
        p <= s@.len() <= usize::MAX,
    ensures
        r == unclosed_comment(s@, p as int),
{
    let ss: [u8; 2] = [0x2fu8, 0x2fu8];
    let nl: [u8; 1] = [0x0au8];
    let sst: [u8; 2] = [0x2fu8, 0x2au8];
    let sts: [u8; 2] = [0x2au8, 0x2fu8];
    assert(ss@ =~= slash_slash());
    assert(nl@ =~= newline());
    assert(sst@ =~= slash_star());
    assert(sts@ =~= star_slash());
    if tag_at(s, p, ss.as_slice()) && find_exec(s, p + 2, nl.as_slice()).is_none() {
        return true;
    }
    tag_at(s, p, sst.as_slice()) && find_exec(s, p + 2, sts.as_slice()).is_none()
}

/// The position after zero or more skip units from `p`.
pub fn skip_many_exec(s: &[u8], p: usize) -> (r: usize)
    requires
        p <= s@.len(),
    ensures
        r as int == skip_many(s@, p as int),
        p <= r <= s@.len(),
{
    let mut i: usize = p;
    loop
        invariant
            p <= i <= s@.len(),
            skip_many(s@, i as int) == skip_many(s@, p as int),
        decreases s@.len() - i,
    {
        match skip_one_exec(s, i) {
            Some(q) => {
                i = q;
            },
            None => {
                return i;
            },
        }
    }
}

/// The position after one or more skip units from `p`.
pub fn skip_some_exec(s: &[u8], p: usize) -> (r: Option<usize>)
    requires
        p <= s@.len(),
    ensures
        r matches Some(q) ==> skip_some(s@, p as int) == Some(q as int) && p < q <= s@.len(),
        r is None ==> skip_some(s@, p as int) is None,
{
    match skip_one_exec(s, p) {
        Some(q) => Some(skip_many_exec(s, q)),
        None => None,
    }
}

/// The end of the word at `p`.
pub fn word_exec(s: &[u8], p: usize) -> (r: Option<usize>)
    requires
        p <= s@.len(),
    ensures
        r matches Some(e) ==> word_at(s@, p as int) == Some(e as int) && p < e <= s@.len(),
        r is None ==> word_at(s@, p as int) is None,
{
    let e = run_end_exec(s, p, Run::Word);
    if e > p {
        Some(e)
    } else {
        None
    }
}

/// The text of the word from `a` to `b`.
pub fn word_text(s: &[u8], a: usize, b: usize) -> (r: String)
    requires
        word_at(s@, a as int) == Some(b as int),
        b <= s@.len(),
    ensures
        r@ == ascii_text(s@, a as int, b as int),
{
    proof {
        lemma_run_bytes(s@, a as int, Run::Word);
    }
    lossy_text(s, a, b)
}

pub proof fn lemma_run_bytes(s: Seq<u8>, p: int, k: Run)
    requires
        0 <= p <= s.len(),
    ensures
        p <= run_end(s, p, k) <= s.len(),
        forall|i: int| p <= i < run_end(s, p, k) ==> in_run(#[trigger] s[i], k),
    decreases s.len() - p,
{
    if p < s.len() && in_run(s[p], k) {
        lemma_run_bytes(s, p + 1, k);
    }
}

} // verus!
