//! Splitting text into words and writing numbers in decimal.

use vstd::prelude::*;
use vstd::string::StrSliceExecFns;
use vstd::string::StringExecFns;

verus! {

/// Unicode `White_Space`: the characters that separate words of a title.
pub open spec fn is_space(c: char) -> bool {
    let u = c as u32;
    (0x9 <= u && u <= 0xD) || u == 0x20 || u == 0x85 || u == 0xA0 || u == 0x1680 || (0x2000 <= u
        && u <= 0x200A) || u == 0x2028 || u == 0x2029 || u == 0x202F || u == 0x205F || u == 0x3000
}

/// Whether `c` is white space.
pub fn is_whitespace(c: char) -> (r: bool)
    ensures
        r == is_space(c),
{
    let u = c as u32;
    (0x9 <= u && u <= 0xD) || u == 0x20 || u == 0x85 || u == 0xA0 || u == 0x1680 || (0x2000 <= u
        && u <= 0x200A) || u == 0x2028 || u == 0x2029 || u == 0x202F || u == 0x205F || u == 0x3000
}

/// The words of `s` from position `i` on, where `cur` is the part of a word
/// read just before `i`: the maximal runs of characters that are not space.
pub open spec fn words_from(s: Seq<char>, i: int, cur: Seq<char>) -> Seq<Seq<char>>
    decreases s.len() - i,
{
    if i >= s.len() {
        if cur.len() > 0 {
            seq![cur]
        } else {
            seq![]
        }
    } else if is_space(s[i]) {
        if cur.len() > 0 {
            seq![cur] + words_from(s, i + 1, seq![])
        } else {
            words_from(s, i + 1, seq![])
        }
    } else {
        words_from(s, i + 1, cur.push(s[i]))
    }
}

/// The words of `s`, in order.
pub open spec fn words_of(s: Seq<char>) -> Seq<Seq<char>> {
    words_from(s, 0, seq![])
}

/// A word: at least one character, and none of them white space.
pub open spec fn solid(w: Seq<char>) -> bool {
    w.len() > 0 && forall|k: int| 0 <= k < w.len() ==> !is_space(#[trigger] w[k])
}

/// Every word holds at least one character and no white space.
pub proof fn lemma_words_solid(s: Seq<char>, i: int, cur: Seq<char>)
    requires
        0 <= i,
        forall|k: int| 0 <= k < cur.len() ==> !is_space(#[trigger] cur[k]),
    ensures
        forall|j: int|
            0 <= j < words_from(s, i, cur).len() ==> solid(#[trigger] words_from(s, i, cur)[j]),
    decreases s.len() - i,
{
    let ws = words_from(s, i, cur);
    if i >= s.len() {
        if cur.len() > 0 {
            assert(ws == seq![cur]);
        } else {
            assert(ws.len() == 0);
        }
    } else if is_space(s[i]) {
        lemma_words_solid(s, i + 1, seq![]);
        let rest = words_from(s, i + 1, seq![]);
        if cur.len() > 0 {
            assert(ws == seq![cur] + rest);
            assert forall|j: int| 0 <= j < ws.len() implies solid(#[trigger] ws[j]) by {
                if j > 0 {
                    assert(ws[j] == rest[j - 1]);
                }
            }
        } else {
            assert(ws == rest);
        }
    } else {
        let c2 = cur.push(s[i]);
        assert forall|k: int| 0 <= k < c2.len() implies !is_space(#[trigger] c2[k]) by {
            if k < cur.len() {
                assert(c2[k] == cur[k]);
            }
        }
        lemma_words_solid(s, i + 1, c2);
        assert(ws == words_from(s, i + 1, c2));
    }
}

/// The text of each string.
pub open spec fn texts(v: Seq<String>) -> Seq<Seq<char>> {
    v.map_values(|w: String| w@)
}

/// The words of `s`, in order: the maximal runs of characters that are not
/// white space.
pub fn split_words(s: &str) -> (r: Vec<String>)
    ensures
        texts(r@) == words_of(s@),
{
    let n = s.unicode_len();
    let mut r: Vec<String> = Vec::new();
    let mut start: usize = 0;
    let mut i: usize = 0;
    assert(s@.subrange(0, 0) =~= seq![]);
    assert(texts(r@) + words_of(s@) =~= words_of(s@));
    while i < n
        invariant
            n == s@.len(),
            start <= i <= n,
            texts(r@) + words_from(s@, i as int, s@.subrange(start as int, i as int)) == words_of(
                s@,
            ),
        decreases n - i,
    {
        let c = s.get_char(i);
        let ghost before = texts(r@);
        if is_whitespace(c) {
            if start < i {
                let w = String::from_str(s.substring_char(start, i));
                r.push(w);
                assert(texts(r@) =~= before + seq![s@.subrange(start as int, i as int)]);
                assert(s@.subrange(i as int + 1, i as int + 1) =~= seq![]);
            } else {
                assert(s@.subrange(start as int, i as int) =~= seq![]);
                assert(s@.subrange(i as int + 1, i as int + 1) =~= seq![]);
            }
            start = i + 1;
        } else {
            assert(s@.subrange(start as int, i as int + 1) =~= s@.subrange(
                start as int,
                i as int,
            ).push(c));
        }
        i = i + 1;
    }
    if start < n {
        let w = String::from_str(s.substring_char(start, n));
        let ghost before = texts(r@);
        r.push(w);
        assert(texts(r@) =~= before + seq![s@.subrange(start as int, n as int)]);
    } else {
        assert(s@.subrange(start as int, n as int) =~= seq![]);
        assert(texts(r@) + seq![] =~= texts(r@));
    }
    r
}

/// Whether `list` holds a string equal to `s`.
pub fn contains_text(list: &Vec<String>, s: &String) -> (r: bool)
    ensures
        r == texts(list@).contains(s@),
{
    let mut i: usize = 0;
    while i < list.len()
        invariant
            i <= list.len(),
            forall|j: int| 0 <= j < i ==> list@[j]@ != s@,
        decreases list.len() - i,
    {
        if list[i] == *s {
            assert(texts(list@)[i as int] == s@);
            return true;
        }
        i = i + 1;
    }
    proof {
        if texts(list@).contains(s@) {
            let j = choose|j: int| 0 <= j < texts(list@).len() && texts(list@)[j] == s@;
            assert(list@[j]@ == s@);
        }
    }
    false
}

/// The decimal digits of `n`, most significant first, without leading zeros.
pub open spec fn decimal(n: nat) -> Seq<char>
    decreases n,
{
    if n < 10 {
        seq!["0123456789"@[n as int]]
    } else {
        decimal(n / 10).push("0123456789"@[(n % 10) as int])
    }
}

/// Appends the decimal digits of `n` to `out`.
fn push_decimal(out: &mut String, n: u64)
    ensures
        final(out)@ == old(out)@ + decimal(n as nat),
    decreases n,
{
    let digits = "0123456789";
    proof {
        reveal_strlit("0123456789");
    }
    if n >= 10 {
        push_decimal(out, n / 10);
    }
    let d = (n % 10) as usize;
    out.append(digits.substring_char(d, d + 1));
    assert(digits@.subrange(d as int, d as int + 1) =~= seq![digits@[d as int]]);
    proof {
        if n >= 10 {
            assert(old(out)@ + decimal(n as nat) =~= old(out)@ + decimal((n / 10) as nat) + seq![
                digits@[d as int],
            ]);
        } else {
            assert(d == n);
        }
    }
}

/// `n` written in decimal.
pub fn to_decimal(n: u64) -> (r: String)
    ensures
        r@ == decimal(n as nat),
{
    let mut r = String::new();
    push_decimal(&mut r, n);
    assert(r@ =~= decimal(n as nat));
    r
}

} // verus!
