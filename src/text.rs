use vstd::prelude::*;

verus! {

/// Unicode `White_Space`, as `char::is_whitespace` has it.
pub open spec fn is_space(c: char) -> bool {
    c == ' ' || ('\t' <= c && c <= '\r') || c == '\u{85}' || c == '\u{a0}' || c == '\u{1680}'
        || ('\u{2000}' <= c && c <= '\u{200a}') || c == '\u{2028}' || c == '\u{2029}' || c == '\u{202f}'
        || c == '\u{205f}' || c == '\u{3000}'
}

pub fn char_is_space(c: char) -> (r: bool)
    ensures
        r == is_space(c),
{
    c == ' ' || ('\t' <= c && c <= '\r') || c == '\u{85}' || c == '\u{a0}' || c == '\u{1680}'
        || ('\u{2000}' <= c && c <= '\u{200a}') || c == '\u{2028}' || c == '\u{2029}' || c == '\u{202f}'
        || c == '\u{205f}' || c == '\u{3000}'
}

/// Words found so far, and the word being read, scanning left to right.
pub open spec fn word_scan(s: Seq<char>) -> (Seq<Seq<char>>, Seq<char>)
    decreases s.len(),
{
    if s.len() == 0 {
        (Seq::empty(), Seq::empty())
    } else {
        let (ws, cur) = word_scan(s.drop_last());
        let c = s.last();
        if is_space(c) {
            if cur.len() > 0 {
                (ws.push(cur), Seq::empty())
            } else {
                (ws, cur)
            }
        } else {
            (ws, cur.push(c))
        }
    }
}

/// The maximal runs of non-space characters, in order.
pub open spec fn words(s: Seq<char>) -> Seq<Seq<char>> {
    let (ws, cur) = word_scan(s);
    if cur.len() > 0 {
        ws.push(cur)
    } else {
        ws
    }
}

/// Splits `s` into its words, as `str::split_whitespace` does.
pub fn split_words(s: &str) -> (r: Vec<String>)
    ensures
        r@.map_values(|w: String| w@) == words(s@),
{
    let len = s.unicode_len();
    let mut out: Vec<String> = Vec::new();
    let mut start: usize = 0;
    let mut i: usize = 0;
    while i < len
        invariant
            start <= i <= len == s@.len(),
            out@.map_values(|w: String| w@) == word_scan(s@.take(i as int)).0,
            s@.subrange(start as int, i as int) == word_scan(s@.take(i as int)).1,
        decreases len - i,
    {
        let c = s.get_char(i);
        let ghost t = s@.take(i + 1);
        assert(t.drop_last() == s@.take(i as int));
        assert(t.last() == c);
        if char_is_space(c) {
            if start < i {
                let w = s.substring_char(start, i).to_owned();
                let ghost before = out@;
                out.push(w);
                assert(out@.map_values(|w: String| w@) =~= before.map_values(|w: String| w@).push(w@));
            }
            start = i + 1;
            assert(s@.subrange(start as int, i + 1) =~= Seq::<char>::empty());
        } else {
            assert(s@.subrange(start as int, i + 1) =~= s@.subrange(start as int, i as int).push(c));
        }
        i = i + 1;
    }
    assert(s@.take(len as int) =~= s@);
    if start < len {
        let w = s.substring_char(start, len).to_owned();
        let ghost before = out@;
        out.push(w);
        assert(out@.map_values(|w: String| w@) =~= before.map_values(|w: String| w@).push(w@));
    }
    out
}

/// Number of leading spaces.
pub open spec fn lead(s: Seq<char>) -> nat
    decreases s.len(),
{
    if s.len() == 0 {
        0
    } else if is_space(s[0]) {
        1 + lead(s.drop_first())
    } else {
        0
    }
}

/// Number of trailing spaces.
pub open spec fn trail(s: Seq<char>) -> nat
    decreases s.len(),
{
    if s.len() == 0 {
        0
    } else if is_space(s.last()) {
        1 + trail(s.drop_last())
    } else {
        0
    }
}

/// `s` without leading and trailing spaces.
pub open spec fn trim(s: Seq<char>) -> Seq<char> {
    if lead(s) >= s.len() {
        Seq::empty()
    } else {
        s.subrange(lead(s) as int, s.len() - trail(s))
    }
}

proof fn lemma_lead(s: Seq<char>, i: int)
    requires
        0 <= i <= s.len(),
        forall|j: int| 0 <= j < i ==> is_space(#[trigger] s[j]),
    ensures
        lead(s) == i + lead(s.skip(i)),
    decreases i,
{
    if i > 0 {
        assert(is_space(s[0]));
        lemma_lead(s.drop_first(), i - 1);
        assert(s.drop_first().skip(i - 1) =~= s.skip(i));
    } else {
        assert(s.skip(0) =~= s);
    }
}

proof fn lemma_trail(s: Seq<char>, i: int)
    requires
        0 <= i <= s.len(),
        forall|j: int| s.len() - i <= j < s.len() ==> is_space(#[trigger] s[j]),
    ensures
        trail(s) == i + trail(s.take(s.len() - i)),
    decreases i,
{
    if i > 0 {
        assert(is_space(s[s.len() - 1]));
        lemma_trail(s.drop_last(), i - 1);
        assert(s.drop_last().take(s.drop_last().len() - (i - 1)) =~= s.take(s.len() - i));
    } else {
        assert(s.take(s.len() as int) =~= s);
    }
}

/// `s` without leading and trailing spaces, as `str::trim` gives it.
pub fn trim_text(s: &str) -> (r: String)
    ensures
        r@ == trim(s@),
{
    let len = s.unicode_len();
    let mut a: usize = 0;
    while a < len && char_is_space(s.get_char(a))
        invariant
            a <= len == s@.len(),
            forall|j: int| 0 <= j < a ==> is_space(#[trigger] s@[j]),
        decreases len - a,
    {
        a = a + 1;
    }
    proof {
        lemma_lead(s@, a as int);
        if a < len {
            assert(s@.skip(a as int)[0] == s@[a as int]);
        }
    }
    if a == len {
        assert(s@.skip(a as int).len() == 0);
        return String::new();
    }
    let mut b: usize = len;
    while b > a && char_is_space(s.get_char(b - 1))
        invariant
            a < len == s@.len(),
            a <= b <= len,
            !is_space(s@[a as int]),
            forall|j: int| b <= j < len ==> is_space(#[trigger] s@[j]),
        decreases b,
    {
        b = b - 1;
    }
    proof {
        lemma_trail(s@, (len - b) as int);
        assert(s@.take(b as int).last() == s@[b - 1]);
    }
    s.substring_char(a, b).to_owned()
}

/// Index of the first `:` in `s`, -1 when there is none.
pub open spec fn colon_index(s: Seq<char>) -> int
    decreases s.len(),
{
    if s.len() == 0 {
        -1
    } else if s.last() == ':' && colon_index(s.drop_last()) == -1 {
        s.len() - 1
    } else {
        colon_index(s.drop_last())
    }
}

/// Splits `s` at its first `:`, as `str::split_once(':')` does.
pub fn split_at_colon(s: &str) -> (r: Option<(String, String)>)
    ensures
        colon_index(s@) == -1 <==> r is None,
        r is Some ==> colon_index(s@) >= 0,
        r matches Some((a, b)) ==> a@ == s@.take(colon_index(s@)) && b@ == s@.skip(colon_index(s@) + 1),
{
    let len = s.unicode_len();
    let mut i: usize = 0;
    while i < len
        invariant
            i <= len == s@.len(),
            colon_index(s@.take(i as int)) == -1,
        decreases len - i,
    {
        let ghost t = s@.take(i + 1);
        assert(t.drop_last() == s@.take(i as int));
        if s.get_char(i) == ':' {
            proof {
                lemma_colon_prefix(s@, i as int);
            }
            let a = s.substring_char(0, i).to_owned();
            let b = s.substring_char(i + 1, len).to_owned();
            assert(s@.subrange(0, i as int) =~= s@.take(i as int));
            assert(s@.subrange(i + 1, len as int) =~= s@.skip(i + 1));
            return Some((a, b));
        }
        i = i + 1;
    }
    assert(s@.take(len as int) =~= s@);
    None
}

proof fn lemma_colon_prefix(s: Seq<char>, i: int)
    requires
        0 <= i < s.len(),
        s[i] == ':',
        colon_index(s.take(i)) == -1,
    ensures
        colon_index(s) == i,
    decreases s.len(),
{
    if s.len() == i + 1 {
        assert(s.drop_last() =~= s.take(i));
    } else {
        assert(s.drop_last().take(i) =~= s.take(i));
        lemma_colon_prefix(s.drop_last(), i);
    }
}

/// `s` with `prefix` taken off its front, when it starts with it.
pub fn strip_prefix(s: &str, prefix: &str) -> (r: Option<String>)
    ensures
        (prefix@.len() <= s@.len() && s@.take(prefix@.len() as int) == prefix@) <==> r is Some,
        r matches Some(t) ==> t@ == s@.skip(prefix@.len() as int),
{
    let len = s.unicode_len();
    let n = prefix.unicode_len();
    if n > len {
        return None;
    }
    let head = String::from_str(s.substring_char(0, n));
    let p = String::from_str(prefix);
    assert(s@.subrange(0, n as int) =~= s@.take(n as int));
    if head == p {
        let t = s.substring_char(n, len).to_owned();
        assert(s@.subrange(n as int, len as int) =~= s@.skip(n as int));
        Some(t)
    } else {
        None
    }
}

} // verus!
