//! Verified string utilities: substring search, splitting on a separator
//! character, and left-trimming of whitespace. The extraction and URL
//! routines state their contracts over the spec functions defined here.
use vstd::prelude::*;

verus! {

/// The character sequences of a vector of strings, in order.
pub open spec fn views_of(v: Seq<String>) -> Seq<Seq<char>> {
    v.map_values(|t: String| t@)
}

/// `n` occurs as a contiguous run of characters somewhere in `h`.
pub open spec fn contains_seq(h: Seq<char>, n: Seq<char>) -> bool {
    exists|i: int| 0 <= i && i + n.len() <= h.len() && #[trigger] h.subrange(i, i + n.len()) == n
}

/// Unicode whitespace, the set that left-trimming a label value removes.
pub open spec fn is_space(c: char) -> bool {
    ||| c == '\u{0009}'
    ||| c == '\u{000A}'
    ||| c == '\u{000B}'
    ||| c == '\u{000C}'
    ||| c == '\u{000D}'
    ||| c == ' '
    ||| c == '\u{0085}'
    ||| c == '\u{00A0}'
    ||| c == '\u{1680}'
    ||| ('\u{2000}' <= c && c <= '\u{200A}')
    ||| c == '\u{2028}'
    ||| c == '\u{2029}'
    ||| c == '\u{202F}'
    ||| c == '\u{205F}'
    ||| c == '\u{3000}'
}

/// `s` with its leading whitespace removed; nothing else is altered.
pub open spec fn trimmed_start(s: Seq<char>) -> Seq<char>
    decreases s.len(),
{
    if s.len() > 0 && is_space(s[0]) {
        trimmed_start(s.drop_first())
    } else {
        s
    }
}

/// Index of the first occurrence of `c` in `s`, or -1 if there is none.
pub open spec fn find_char(s: Seq<char>, c: char) -> int
    decreases s.len(),
{
    if s.len() == 0 {
        -1
    } else if s[0] == c {
        0
    } else if find_char(s.drop_first(), c) < 0 {
        -1
    } else {
        find_char(s.drop_first(), c) + 1
    }
}

/// The pieces of `s` between occurrences of `c`, in order. A string without
/// the separator is a single piece; every separator adds one piece, so the
/// result is never empty and empty pieces are kept.
pub open spec fn split_char(s: Seq<char>, c: char) -> Seq<Seq<char>>
    decreases s.len(),
{
    let i = find_char(s, c);
    if 0 <= i < s.len() {
        seq![s.subrange(0, i)] + split_char(s.subrange(i + 1, s.len() as int), c)
    } else {
        seq![s]
    }
}

/// `find_char` is determined by the position of the first occurrence.
pub proof fn lemma_find_char_at(s: Seq<char>, c: char, k: int)
    requires
        0 <= k < s.len(),
        s[k] == c,
        forall|j: int| 0 <= j < k ==> s[j] != c,
    ensures
        find_char(s, c) == k,
    decreases s.len(),
{
    if s[0] == c {
    } else {
        assert(s.drop_first()[k - 1] == s[k]);
        assert forall|j: int| 0 <= j < k - 1 implies s.drop_first()[j] != c by {
            assert(s.drop_first()[j] == s[j + 1]);
        }
        lemma_find_char_at(s.drop_first(), c, k - 1);
    }
}

pub proof fn lemma_find_char_none(s: Seq<char>, c: char)
    requires
        forall|j: int| 0 <= j < s.len() ==> s[j] != c,
    ensures
        find_char(s, c) == -1,
    decreases s.len(),
{
    if s.len() == 0 {
    } else {
        assert forall|j: int| 0 <= j < s.drop_first().len() implies s.drop_first()[j] != c by {
            assert(s.drop_first()[j] == s[j + 1]);
        }
        lemma_find_char_none(s.drop_first(), c);
    }
}

/// Whether `c` is Unicode whitespace.
pub fn is_space_char(c: char) -> (r: bool)
    ensures
        r == is_space(c),
{
    c == '\u{0009}' || c == '\u{000A}' || c == '\u{000B}' || c == '\u{000C}'
        || c == '\u{000D}' || c == ' ' || c == '\u{0085}' || c == '\u{00A0}'
        || c == '\u{1680}' || ('\u{2000}' <= c && c <= '\u{200A}') || c == '\u{2028}'
        || c == '\u{2029}' || c == '\u{202F}' || c == '\u{205F}' || c == '\u{3000}'
}

/// ASCII whitespace, the separators of a class-attribute token list.
pub open spec fn is_ascii_space(c: char) -> bool {
    c == ' ' || c == '\t' || c == '\n' || c == '\u{000C}' || c == '\r'
}

/// Whether `c` is ASCII whitespace.
pub fn is_ascii_space_char(c: char) -> (r: bool)
    ensures
        r == is_ascii_space(c),
{
    c == ' ' || c == '\t' || c == '\n' || c == '\u{000C}' || c == '\r'
}

/// `tok` stands in `s` as one of its ASCII-whitespace-separated tokens: it
/// is nonempty, holds no such whitespace itself, and some occurrence of it
/// in `s` is bounded on both sides by whitespace or the string's edge.
pub open spec fn has_token(s: Seq<char>, tok: Seq<char>) -> bool {
    &&& tok.len() > 0
    &&& forall|k: int| 0 <= k < tok.len() ==> !is_ascii_space(tok[k])
    &&& exists|i: int|
        0 <= i && i + tok.len() <= s.len() && #[trigger] s.subrange(i, i + tok.len()) == tok && (i
            == 0 || is_ascii_space(s[i - 1])) && (i + tok.len() == s.len() || is_ascii_space(
            s[i + tok.len()],
        ))
}

/// Whether `tok` is among the ASCII-whitespace-separated tokens of `s`.
pub fn contains_token(s: &str, tok: &str) -> (r: bool)
    ensures
        r == has_token(s@, tok@),
{
    let sl = s.unicode_len();
    let tl = tok.unicode_len();
    if tl == 0 || tl > sl {
        assert(!has_token(s@, tok@));
        return false;
    }
    let mut k: usize = 0;
    while k < tl
        invariant
            tl == tok@.len(),
            k <= tl,
            forall|j: int| 0 <= j < k ==> !is_ascii_space(tok@[j]),
        decreases tl - k,
    {
        if is_ascii_space_char(tok.get_char(k)) {
            assert(!has_token(s@, tok@));
            return false;
        }
        k = k + 1;
    }
    let mut i: usize = 0;
    while i <= sl - tl
        invariant
            0 < tl <= sl,
            sl == s@.len(),
            tl == tok@.len(),
            i <= sl - tl + 1,
            forall|j: int| 0 <= j < tl ==> !is_ascii_space(tok@[j]),
            forall|m: int|
                0 <= m < i ==> !(#[trigger] s@.subrange(m, m + tl as int) == tok@ && (m == 0
                    || is_ascii_space(s@[m - 1])) && (m + tl == s@.len() || is_ascii_space(
                    s@[m + tl],
                ))),
        decreases sl - tl - i + 1,
    {
        let mut j: usize = 0;
        let mut matched = true;
        while j < tl
            invariant
                0 < tl <= sl,
                sl == s@.len(),
                tl == tok@.len(),
                i + tl <= sl,
                j <= tl,
                matched || j == tl,
                matched <==> (forall|t: int| 0 <= t < j ==> s@[i + t] == tok@[t]),
            decreases tl - j,
        {
            if s.get_char(i + j) != tok.get_char(j) {
                matched = false;
                assert(s@[i + j as int] != tok@[j as int]);
                j = tl;
            } else {
                assert(s@[i + j as int] == tok@[j as int]);
                assert forall|t: int| 0 <= t < j + 1 implies s@[i + t] == tok@[t] by {
                    if t < j {
                        assert(s@[i + t] == tok@[t]);
                    }
                }
                j = j + 1;
            }
        }
        if matched {
            let left_ok = i == 0 || is_ascii_space_char(s.get_char(i - 1));
            if left_ok {
                let right_ok = i + tl == sl || is_ascii_space_char(s.get_char(i + tl));
                if right_ok {
                    proof {
                        assert(s@.subrange(i as int, i + tl as int) =~= tok@);
                        assert(has_token(s@, tok@));
                    }
                    return true;
                }
            }
            proof {
                assert(!((i as int) == 0 || is_ascii_space(s@[i as int - 1])) || !(i + tl
                    == s@.len() || is_ascii_space(s@[i as int + tl as int])));
            }
        } else {
            assert(s@.subrange(i as int, i + tl as int) != tok@) by {
                let t = choose|t: int| 0 <= t < tl && s@[i + t] != tok@[t];
                assert(s@.subrange(i as int, i + tl as int)[t] == s@[i + t]);
            }
        }
        i = i + 1;
    }
    proof {
        assert(!has_token(s@, tok@)) by {
            if has_token(s@, tok@) {
                let m = choose|m: int|
                    0 <= m && m + tok@.len() <= s@.len() && #[trigger] s@.subrange(
                        m,
                        m + tok@.len(),
                    ) == tok@ && (m == 0 || is_ascii_space(s@[m - 1])) && (m + tok@.len()
                        == s@.len() || is_ascii_space(s@[m + tok@.len()]));
                assert(m < i);
                assert(s@.subrange(m, m + tl as int) == tok@);
            }
        }
    }
    false
}

/// Whether two string slices hold the same characters.
pub fn str_eq(a: &str, b: &str) -> (r: bool)
    ensures
        r == (a@ == b@),
{
    let al = a.unicode_len();
    let bl = b.unicode_len();
    if al != bl {
        return false;
    }
    let mut i: usize = 0;
    while i < al
        invariant
            al == a@.len(),
            bl == b@.len(),
            al == bl,
            i <= al,
            forall|j: int| 0 <= j < i ==> a@[j] == b@[j],
        decreases al - i,
    {
        if a.get_char(i) != b.get_char(i) {
            return false;
        }
        i = i + 1;
    }
    proof {
        assert(a@ =~= b@);
    }
    true
}

/// Whether `h` contains `n` as a substring.
pub fn contains_str(h: &str, n: &str) -> (r: bool)
    ensures
        r == contains_seq(h@, n@),
{
    let hl = h.unicode_len();
    let nl = n.unicode_len();
    if nl > hl {
        assert(!contains_seq(h@, n@));
        return false;
    }
    let mut i: usize = 0;
    while i <= hl - nl
        invariant
            nl <= hl,
            hl == h@.len(),
            nl == n@.len(),
            i <= hl - nl + 1,
            forall|k: int| 0 <= k < i ==> #[trigger] h@.subrange(k, k + nl as int) != n@,
        decreases hl - nl - i + 1,
    {
        let mut j: usize = 0;
        let mut matched = true;
        while j < nl
            invariant
                nl <= hl,
                hl == h@.len(),
                nl == n@.len(),
                i + nl <= hl,
                j <= nl,
                matched || j == nl,
                matched <==> (forall|t: int| 0 <= t < j ==> h@[i + t] == n@[t]),
            decreases nl - j,
    {
            if h.get_char(i + j) != n.get_char(j) {
                matched = false;
                assert(h@[i + j as int] != n@[j as int]);
                j = nl;
            } else {
                assert(h@[i + j as int] == n@[j as int]);
                assert forall|t: int| 0 <= t < j + 1 implies h@[i + t] == n@[t] by {
                    if t < j {
                        assert(h@[i + t] == n@[t]);
                    }
                }
                j = j + 1;
            }
        }
        if matched {
            assert(h@.subrange(i as int, i + nl as int) =~= n@);
            return true;
        }
        assert(h@.subrange(i as int, i + nl as int) != n@) by {
            let t = choose|t: int| 0 <= t < nl && h@[i + t] != n@[t];
            assert(h@.subrange(i as int, i + nl as int)[t] == h@[i + t]);
        }
        i = i + 1;
    }
    proof {
        assert forall|k: int| 0 <= k && k + n@.len() <= h@.len() implies #[trigger] h@.subrange(
            k,
            k + n@.len() as int,
        ) != n@ by {
            assert(k < i);
        }
    }
    false
}

/// `s` with its leading whitespace removed.
pub fn trim_start_str(s: &str) -> (r: String)
    ensures
        r@ == trimmed_start(s@),
{
    let len = s.unicode_len();
    proof {
        assert(s@.subrange(0, len as int) =~= s@);
    }
    let mut i: usize = 0;
    while i < len && is_space_char(s.get_char(i))
        invariant
            len == s@.len(),
            i <= len,
            trimmed_start(s@) == trimmed_start(s@.subrange(i as int, len as int)),
        decreases len - i,
    {
        proof {
            let rest = s@.subrange(i as int, len as int);
            assert(rest.len() > 0 && is_space(rest[0]));
            assert(rest.drop_first() =~= s@.subrange(i + 1, len as int));
        }
        i = i + 1;
    }
    proof {
        let rest = s@.subrange(i as int, len as int);
        if rest.len() > 0 {
            assert(!is_space(rest[0]));
        }
        assert(trimmed_start(rest) == rest);
    }
    let sub = s.substring_char(i, len);
    sub.to_owned()
}

/// The pieces of `s` between occurrences of `c`, in order.
pub fn split_str(s: &str, c: char) -> (r: Vec<String>)
    ensures
        views_of(r@) == split_char(s@, c),
{
    let len = s.unicode_len();
    proof {
        assert(s@.subrange(0, len as int) =~= s@);
        assert(views_of(Seq::<String>::empty()) =~= Seq::<Seq<char>>::empty());
    }
    let mut out: Vec<String> = Vec::new();
    let mut start: usize = 0;
    let mut i: usize = 0;
    while i < len
        invariant
            len == s@.len(),
            start <= i <= len,
            forall|j: int| start <= j < i ==> s@[j] != c,
            split_char(s@, c) == views_of(out@) + split_char(
                s@.subrange(start as int, len as int),
                c,
            ),
        decreases len - i,
    {
        if s.get_char(i) == c {
            let ghost om = views_of(out@);
            let ghost piece_seq = s@.subrange(start as int, i as int);
            let ghost tail_seq = s@.subrange(i + 1, len as int);
            proof {
                let rest = s@.subrange(start as int, len as int);
                let k = i - start;
                assert(rest[k] == s@[i as int]);
                assert forall|j: int| 0 <= j < k implies rest[j] != c by {
                    assert(rest[j] == s@[start + j]);
                }
                lemma_find_char_at(rest, c, k);
                assert(rest.subrange(0, k) =~= piece_seq);
                assert(rest.subrange(k + 1, rest.len() as int) =~= tail_seq);
                assert(split_char(rest, c) == seq![piece_seq] + split_char(tail_seq, c));
                assert((om + (seq![piece_seq] + split_char(tail_seq, c))) =~= ((om + seq![
                    piece_seq,
                ]) + split_char(tail_seq, c)));
            }
            let piece = s.substring_char(start, i);
            let piece_string = piece.to_owned();
            out.push(piece_string);
            proof {
                assert(views_of(out@) =~= om + seq![piece_seq]);
            }
            start = i + 1;
        }
        i = i + 1;
    }
    proof {
        let rest = s@.subrange(start as int, len as int);
        assert forall|j: int| 0 <= j < rest.len() implies rest[j] != c by {
            assert(rest[j] == s@[start + j]);
        }
        lemma_find_char_none(rest, c);
        assert(split_char(rest, c) == seq![rest]);
    }
    let ghost om = views_of(out@);
    let last = s.substring_char(start, len);
    let last_string = last.to_owned();
    out.push(last_string);
    proof {
        assert(views_of(out@) =~= om + seq![s@.subrange(start as int, len as int)]);
    }
    out
}

} // verus!
