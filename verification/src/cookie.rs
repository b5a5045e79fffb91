//! Extraction of the session credential from a local cookie-store dump. The
//! dump is scanned for the credential's name, case-insensitively, followed
//! by whitespace and the credential value; the value is then stripped of
//! stray whitespace, semicolons and quotes.

use vstd::prelude::*;

verus! {

/// The character classes the scanner cares about.
#[derive(Clone, Copy)]
pub enum CharClass {
    /// Whitespace between the credential's name and its value.
    Space,
    /// Statement-terminating semicolons.
    Semi,
    /// Single or double quotes around a value.
    Quote,
    /// A credential-value character: anything but whitespace, `;` and `#`.
    Token,
}

pub open spec fn in_class(c: char, cls: CharClass) -> bool {
    match cls {
        CharClass::Space => c == ' ' || c == '\t' || c == '\r' || c == '\n',
        CharClass::Semi => c == ';',
        CharClass::Quote => c == '"' || c == '\'',
        CharClass::Token => !(c == ' ' || c == '\t' || c == '\r' || c == '\n' || c == ';' || c
            == '#'),
    }
}

fn in_class_exec(c: char, cls: CharClass) -> (r: bool)
    ensures
        r == in_class(c, cls),
{
    match cls {
        CharClass::Space => c == ' ' || c == '\t' || c == '\r' || c == '\n',
        CharClass::Semi => c == ';',
        CharClass::Quote => c == '"' || c == '\'',
        CharClass::Token => !(c == ' ' || c == '\t' || c == '\r' || c == '\n' || c == ';' || c
            == '#'),
    }
}

/// How many leading characters of `s` lie in `cls`.
pub open spec fn leading_count(s: Seq<char>, cls: CharClass) -> int
    decreases s.len(),
{
    if s.len() == 0 || !in_class(s[0], cls) {
        0
    } else {
        1 + leading_count(s.drop_first(), cls)
    }
}

/// How many trailing characters of `s` lie in `cls`.
pub open spec fn trailing_count(s: Seq<char>, cls: CharClass) -> int
    decreases s.len(),
{
    if s.len() == 0 || !in_class(s.last(), cls) {
        0
    } else {
        1 + trailing_count(s.drop_last(), cls)
    }
}

pub proof fn lemma_leading_count_bounds(s: Seq<char>, cls: CharClass)
    ensures
        0 <= leading_count(s, cls) <= s.len(),
    decreases s.len(),
{
    if s.len() > 0 && in_class(s[0], cls) {
        lemma_leading_count_bounds(s.drop_first(), cls);
    }
}

pub proof fn lemma_trailing_count_bounds(s: Seq<char>, cls: CharClass)
    ensures
        0 <= trailing_count(s, cls) <= s.len(),
    decreases s.len(),
{
    if s.len() > 0 && in_class(s.last(), cls) {
        lemma_trailing_count_bounds(s.drop_last(), cls);
    }
}

/// The leading count is the position of the first character outside the
/// class, or the length when there is none.
pub proof fn lemma_leading_count_is(s: Seq<char>, cls: CharClass, a: int)
    requires
        0 <= a <= s.len(),
        forall|j: int| 0 <= j < a ==> in_class(#[trigger] s[j], cls),
        a < s.len() ==> !in_class(s[a], cls),
    ensures
        leading_count(s, cls) == a,
    decreases a,
{
    if a == 0 {
    } else {
        assert(in_class(s[0], cls));
        assert(forall|j: int| 0 <= j < a - 1 ==> #[trigger] s.drop_first()[j] == s[j + 1]);
        lemma_leading_count_is(s.drop_first(), cls, a - 1);
    }
}

/// The trailing count is the length of the maximal in-class suffix.
pub proof fn lemma_trailing_count_is(s: Seq<char>, cls: CharClass, b: int)
    requires
        0 <= b <= s.len(),
        forall|j: int| s.len() - b <= j < s.len() ==> in_class(#[trigger] s[j], cls),
        b < s.len() ==> !in_class(s[s.len() - b - 1], cls),
    ensures
        trailing_count(s, cls) == b,
    decreases b,
{
    if b == 0 {
    } else {
        assert(in_class(s.last(), cls));
        assert(forall|j: int| 0 <= j < s.len() - 1 ==> #[trigger] s.drop_last()[j] == s[j]);
        lemma_trailing_count_is(s.drop_last(), cls, b - 1);
    }
}

/// Counts the characters of `s` in `cls` from position `start` on.
#[verifier::loop_isolation(false)]
fn count_class_from(s: &str, start: usize, cls: CharClass) -> (r: usize)
    requires
        start <= s@.len(),
    ensures
        r == leading_count(s@.skip(start as int), cls),
        start + r <= s@.len(),
{
    let n = s.unicode_len();
    let mut j = start;
    while j < n && in_class_exec(s.get_char(j), cls)
        invariant
            start <= j <= n,
            forall|t: int| start <= t < j ==> in_class(#[trigger] s@[t], cls),
        decreases n - j,
    {
        j += 1;
    }
    proof {
        let tail = s@.skip(start as int);
        assert(forall|t: int| 0 <= t < tail.len() ==> #[trigger] tail[t] == s@[t + start]);
        lemma_leading_count_is(tail, cls, j - start);
    }
    j - start
}

/// Counts the characters of `s` in `cls` from the end backwards.
#[verifier::loop_isolation(false)]
fn count_class_back(s: &str, cls: CharClass) -> (r: usize)
    ensures
        r == trailing_count(s@, cls),
        r <= s@.len(),
{
    let n = s.unicode_len();
    let mut j = n;
    while j > 0 && in_class_exec(s.get_char(j - 1), cls)
        invariant
            0 <= j <= n,
            forall|t: int| j <= t < n ==> in_class(#[trigger] s@[t], cls),
        decreases j,
    {
        j -= 1;
    }
    proof {
        lemma_trailing_count_is(s@, cls, n - j);
    }
    n - j
}

/// What cleaning a raw credential value means: strip surrounding whitespace,
/// then trailing semicolons, then surrounding quotes.
pub open spec fn clean_spec(s: Seq<char>) -> Seq<char> {
    let t1 = s.skip(leading_count(s, CharClass::Space));
    let t2 = t1.take(t1.len() - trailing_count(t1, CharClass::Space));
    let t3 = t2.take(t2.len() - trailing_count(t2, CharClass::Semi));
    let t4 = t3.skip(leading_count(t3, CharClass::Quote));
    t4.take(t4.len() - trailing_count(t4, CharClass::Quote))
}

/// Strips surrounding whitespace, trailing semicolons and surrounding quotes
/// off a raw credential value.
pub fn clean_value(s: &str) -> (r: String)
    ensures
        r@ == clean_spec(s@),
{
    let n = s.unicode_len();
    let a1 = count_class_from(s, 0, CharClass::Space);
    proof {
        assert(s@.skip(0) =~= s@);
    }
    let t1 = s.substring_char(a1, n);
    proof {
        assert(t1@ =~= s@.skip(a1 as int));
    }
    let b1 = count_class_back(t1, CharClass::Space);
    let t2 = t1.substring_char(0, t1.unicode_len() - b1);
    proof {
        assert(t2@ =~= t1@.take(t1@.len() - trailing_count(t1@, CharClass::Space)));
    }
    let b2 = count_class_back(t2, CharClass::Semi);
    let t3 = t2.substring_char(0, t2.unicode_len() - b2);
    proof {
        assert(t3@ =~= t2@.take(t2@.len() - trailing_count(t2@, CharClass::Semi)));
    }
    let a3 = count_class_from(t3, 0, CharClass::Quote);
    proof {
        assert(t3@.skip(0) =~= t3@);
    }
    let t4 = t3.substring_char(a3, t3.unicode_len());
    proof {
        assert(t4@ =~= t3@.skip(leading_count(t3@, CharClass::Quote)));
    }
    let b4 = count_class_back(t4, CharClass::Quote);
    let t5 = t4.substring_char(0, t4.unicode_len() - b4);
    proof {
        assert(t5@ =~= t4@.take(t4@.len() - trailing_count(t4@, CharClass::Quote)));
        assert(t5@ =~= clean_spec(s@));
    }
    t5.to_owned()
}

/// The credential's name, lowercase: what the scanner looks for,
/// case-insensitively.
pub open spec fn cred_pat() -> Seq<char> {
    ".roblosecurity"@
}

/// Case-insensitive match of one character against a lowercase pattern
/// character.
pub open spec fn ci_match(c: char, p: char) -> bool {
    c == p || (97 <= p as int <= 122 && c as int == p as int - 32)
}

/// The credential's name occurs at position `i`.
pub open spec fn pat_at(s: Seq<char>, i: int) -> bool {
    &&& 0 <= i
    &&& i + 14 <= s.len()
    &&& forall|k: int| 0 <= k < 14 ==> ci_match(#[trigger] s[i + k], cred_pat()[k])
}

/// The first credential value found scanning from position `i`: the name,
/// at least one whitespace character, then a maximal non-empty run of value
/// characters, cleaned; a value that cleans to nothing is skipped and the
/// scan continues after it.
pub open spec fn extract_from(s: Seq<char>, i: int) -> Option<Seq<char>>
    decreases s.len() - i,
    via extract_from_decreases
{
    if i < 0 || i + 14 > s.len() {
        None
    } else {
        let sp = leading_count(s.skip(i + 14), CharClass::Space);
        let t0 = i + 14 + sp;
        let tk = leading_count(s.skip(t0), CharClass::Token);
        if pat_at(s, i) && sp >= 1 && tk >= 1 {
            let cleaned = clean_spec(s.subrange(t0, t0 + tk));
            if cleaned.len() > 0 {
                Some(cleaned)
            } else {
                extract_from(s, t0 + tk)
            }
        } else {
            extract_from(s, i + 1)
        }
    }
}

#[via_fn]
proof fn extract_from_decreases(s: Seq<char>, i: int) {
    if !(i < 0 || i + 14 > s.len()) {
        lemma_leading_count_bounds(s.skip(i + 14), CharClass::Space);
        let sp = leading_count(s.skip(i + 14), CharClass::Space);
        lemma_leading_count_bounds(s.skip(i + 14 + sp), CharClass::Token);
    }
}

/// The credential hidden in a cookie-store dump, if any.
#[verifier::loop_isolation(false)]
#[verifier::rlimit(60)]
pub fn extract_roblosecurity(text: &str) -> (r: Option<String>)
    ensures
        match r {
            Some(v) => extract_from(text@, 0) == Some(v@),
            None => extract_from(text@, 0) is None,
        },
{
    let pat = ".roblosecurity";
    proof {
        reveal_strlit(".roblosecurity");
    }
    let n = text.unicode_len();
    let mut i: usize = 0;
    while i < n && n - i >= 14
        invariant
            0 <= i <= n,
            n == text@.len(),
            extract_from(text@, 0) == extract_from(text@, i as int),
        decreases n - i,
    {
        let mut k: usize = 0;
        let mut matched = true;
        while k < 14 && matched
            invariant
                0 <= k <= 14,
                i + 14 <= n,
                matched ==> forall|t: int|
                    0 <= t < k ==> ci_match(#[trigger] text@[i + t], cred_pat()[t]),
                !matched ==> k > 0 && !ci_match(text@[i + k - 1], cred_pat()[k - 1]),
            decreases 14 - k,
        {
            let c = text.get_char(i + k);
            let p = pat.get_char(k);
            let ci = c == p || (97 <= p as u32 && p as u32 <= 122 && c as u32 == p as u32 - 32);
            if !ci {
                matched = false;
            }
            k += 1;
        }
        if matched {
            let sp = count_class_from(text, i + 14, CharClass::Space);
            if sp == 0 {
                proof {
                    assert(extract_from(text@, i as int) == extract_from(text@, i + 1));
                }
                i += 1;
                continue;
            }
            let t0 = i + 14 + sp;
            let tk = count_class_from(text, t0, CharClass::Token);
            if tk == 0 {
                proof {
                    assert(extract_from(text@, i as int) == extract_from(text@, i + 1));
                }
                i += 1;
                continue;
            }
            let token = text.substring_char(t0, t0 + tk);
            let cleaned = clean_value(token);
            proof {
                assert(pat_at(text@, i as int));
                assert(token@ =~= text@.subrange(t0 as int, t0 + tk));
            }
            if !cleaned.as_str().is_empty() {
                proof {
                    assert(extract_from(text@, i as int) == Some(cleaned@));
                }
                return Some(cleaned);
            }
            proof {
                assert(extract_from(text@, i as int) == extract_from(text@, t0 + tk));
            }
            i = t0 + tk;
        } else {
            proof {
                let kk = k - 1;
                assert(!ci_match(text@[i + kk], cred_pat()[kk as int]));
                assert(!pat_at(text@, i as int));
                assert(extract_from(text@, i as int) == extract_from(text@, i + 1));
            }
            i += 1;
        }
    }
    proof {
        assert(extract_from(text@, i as int) is None);
    }
    None
}

} // verus!
