//! First reading of metadata (university, year, admission round and
//! selection types) from a file's name and the folders above it.
//!
//! The names follow no single convention, e.g.
//!   "한림대ㅣ2026 수시 입결.pdf"
//!   "동의대ㅣ2026학년도 수시모집 학생부교과, 실기실적 전형결과(최종).pdf"
//!   "2026 아주대 입결/KakaoTalk_20260420_162653595.jpg"
//! The main separator is 'ㅣ' (U+3163, a Hangul compatibility jamo) between
//! the university and the rest; white space, '_', '-' and square brackets
//! separate other parts.
use crate::model::Track;
use crate::text::{
    chars_of, contains, contains_str, decimal, ends_with, ends_with_str, find_char, is_white_space,
    is_whitespace, lemma_trim_idempotent, parse_u32, parse_u32_exec, trim, trim_end, trim_start,
    trim_to_string,
};
use vstd::prelude::*;

verus! {

/// What a file name says about its document.
pub struct ParsedName {
    pub univ: Option<String>,
    pub year: Option<u32>,
    pub track: Track,
    pub selection_types: Vec<String>,
}

// ---------------------------------------------------------------------------
// Regular expressions (the `regex` crate)
// ---------------------------------------------------------------------------

/// The text of the leftmost-first match of `pattern` in `haystack` under the
/// `regex` crate's semantics; none when there is no match or the pattern does
/// not compile.
pub uninterp spec fn regex_find(pattern: Seq<char>, haystack: Seq<char>) -> Option<Seq<char>>;

/// Compiles `pattern` with `regex::Regex::new` and returns the text of
/// `Regex::find` on `haystack`. Claimed: the result is `regex_find` of the two
/// arguments. Nothing more is stated of the regex semantics.
#[verifier::external_body]
fn first_match(pattern: &str, haystack: &str) -> (res: Option<String>)
    ensures
        res.deep_view() == regex_find(pattern@, haystack@),
{
    match regex::Regex::new(pattern) {
        Ok(re) => match re.find(haystack) {
            Some(m) => Some(m.as_str().to_string()),
            None => None,
        },
        Err(_) => None,
    }
}

/// A year: "20" and two more digits.
pub open spec fn year_pattern() -> Seq<char> {
    "(20\\d{2})"@
}

/// A university in a folder name: Hangul or Latin letters ending in 대학교 or 대.
pub open spec fn univ_pattern() -> Seq<char> {
    "([가-힣A-Za-z]+(?:대학교|대))"@
}

// ---------------------------------------------------------------------------
// Specification
// ---------------------------------------------------------------------------

/// The separator between university and the rest of a name.
pub open spec fn univ_separator() -> char {
    '\u{3163}'
}

/// Position of the first `c` in `s`, or the length of `s` if there is none.
pub open spec fn char_position(s: Seq<char>, c: char) -> nat
    decreases s.len(),
{
    if s.len() == 0 || s[0] == c {
        0
    } else {
        1 + char_position(s.drop_first(), c)
    }
}

/// The characters that end the first token of a name.
pub open spec fn is_token_separator(c: char) -> bool {
    is_white_space(c) || c == '_' || c == '-' || c == '[' || c == ']'
}

/// Length of the first token: up to the first separator or the end.
pub open spec fn token_end(s: Seq<char>) -> nat
    decreases s.len(),
{
    if s.len() == 0 || is_token_separator(s[0]) {
        0
    } else {
        1 + token_end(s.drop_first())
    }
}

/// The first token of a name (`split(sep).next()`).
pub open spec fn first_token(s: Seq<char>) -> Seq<char> {
    s.take(token_end(s) as int)
}

/// Normal form of a university name: trimmed.
pub open spec fn normalized_univ(s: Seq<char>) -> Seq<char> {
    trim(s)
}

/// The university a file name states: the trimmed text before the first 'ㅣ'
/// if that is not empty, else the first token if it ends in 대 or 교.
pub open spec fn univ_of_stem(stem: Seq<char>) -> Option<Seq<char>> {
    let p = char_position(stem, univ_separator());
    let head = trim(stem.take(p as int));
    if p < stem.len() && head.len() > 0 {
        Some(normalized_univ(head))
    } else {
        let t = first_token(stem);
        if ends_with(t, "대"@) || ends_with(t, "교"@) {
            Some(normalized_univ(t))
        } else {
            None
        }
    }
}

/// The university found in folder names, given the university-pattern match
/// of each folder: the one nearest the file that matched.
pub open spec fn univ_of_folder_matches(ms: Seq<Option<Seq<char>>>) -> Option<Seq<char>>
    decreases ms.len(),
{
    if ms.len() == 0 {
        None
    } else {
        match ms.last() {
            Some(m) => Some(normalized_univ(m)),
            None => univ_of_folder_matches(ms.drop_last()),
        }
    }
}

/// The university-pattern match of each folder name.
pub open spec fn folder_matches(components: Seq<String>) -> Seq<Option<Seq<char>>> {
    components.map_values(|c: String| regex_find(univ_pattern(), c@))
}

/// The year given by the year-pattern match, when it reads as a `u32`.
pub open spec fn year_of_match(m: Option<Seq<char>>) -> Option<u32> {
    match m {
        Some(t) => parse_u32(t),
        None => None,
    }
}

/// 수시 wins over 정시; neither gives `Unknown`.
pub open spec fn track_of(stem: Seq<char>) -> Track {
    if contains(stem, "수시"@) {
        Track::Susi
    } else if contains(stem, "정시"@) {
        Track::Jeongsi
    } else {
        Track::Unknown
    }
}

/// `label` alone when `present`, else nothing.
pub open spec fn tag_if(present: bool, label: Seq<char>) -> Seq<Seq<char>> {
    if present {
        seq![label]
    } else {
        Seq::empty()
    }
}

/// The selection types a name mentions, in a fixed order; 정시 only when the
/// name mentions 정시 and no other type.
pub open spec fn selection_types_of(b: Seq<char>) -> Seq<Seq<char>> {
    let s = tag_if(
        contains(b, "학생부교과"@) || contains(b, "교과전형"@) || contains(b, "교과형"@),
        "학생부교과"@,
    ) + tag_if(
        contains(b, "학생부종합"@) || contains(b, "종합전형"@) || contains(b, "종합형"@),
        "학생부종합"@,
    ) + tag_if(contains(b, "논술"@), "논술"@) + tag_if(
        contains(b, "실기"@) || contains(b, "예체능"@),
        "실기/예체능"@,
    );
    s + tag_if(contains(b, "정시"@) && s.len() == 0, "정시"@)
}


/// The rank of each selection type in the order in which they are listed.
pub open spec fn selection_rank(t: Seq<char>) -> int {
    if t == "학생부교과"@ {
        0
    } else if t == "학생부종합"@ {
        1
    } else if t == "논술"@ {
        2
    } else if t == "실기/예체능"@ {
        3
    } else if t == "정시"@ {
        4
    } else {
        5
    }
}

/// Each selection type is recognised from its own keywords: a name has
/// 학생부교과 when it mentions 학생부교과, 교과전형 or 교과형; 학생부종합 when it
/// mentions 학생부종합, 종합전형 or 종합형; 논술 when it mentions 논술;
/// 실기/예체능 when it mentions 실기 or 예체능; and 정시 when it mentions 정시
/// and none of the others is found. Nothing else is listed, no type twice,
/// and the types come in that order.
pub proof fn lemma_selection_types_keywords(b: Seq<char>)
    ensures
        selection_types_of(b).contains("학생부교과"@) <==> (contains(b, "학생부교과"@) || contains(
            b,
            "교과전형"@,
        ) || contains(b, "교과형"@)),
        selection_types_of(b).contains("학생부종합"@) <==> (contains(b, "학생부종합"@) || contains(
            b,
            "종합전형"@,
        ) || contains(b, "종합형"@)),
        selection_types_of(b).contains("논술"@) <==> contains(b, "논술"@),
        selection_types_of(b).contains("실기/예체능"@) <==> (contains(b, "실기"@) || contains(
            b,
            "예체능"@,
        )),
        selection_types_of(b).contains("정시"@) <==> (contains(b, "정시"@) && !contains(
            b,
            "학생부교과"@,
        ) && !contains(b, "교과전형"@) && !contains(b, "교과형"@) && !contains(b, "학생부종합"@)
            && !contains(b, "종합전형"@) && !contains(b, "종합형"@) && !contains(b, "논술"@)
            && !contains(b, "실기"@) && !contains(b, "예체능"@)),
        forall|i: int| 0 <= i < selection_types_of(b).len() ==> selection_rank(#[trigger] selection_types_of(b)[i]) <= 4,
        forall|i: int, j: int|
            0 <= i < j < selection_types_of(b).len() ==> selection_rank(
                #[trigger] selection_types_of(b)[i],
            ) < selection_rank(#[trigger] selection_types_of(b)[j]),
{
    reveal_strlit("학생부교과");
    reveal_strlit("학생부종합");
    reveal_strlit("논술");
    reveal_strlit("실기/예체능");
    reveal_strlit("정시");
    assert("학생부종합"@[3] != "학생부교과"@[3]);
    assert("논술"@[0] != "학생부교과"@[0] && "논술"@[0] != "학생부종합"@[0]);
    assert("정시"@[0] != "논술"@[0]);
    let l1 = "학생부교과"@;
    let l2 = "학생부종합"@;
    let l3 = "논술"@;
    let l4 = "실기/예체능"@;
    let l5 = "정시"@;
    assert(selection_rank(l1) == 0);
    assert(selection_rank(l2) == 1);
    assert(selection_rank(l3) == 2);
    assert(selection_rank(l4) == 3);
    assert(selection_rank(l5) == 4);
    let t1 = contains(b, "학생부교과"@) || contains(b, "교과전형"@) || contains(b, "교과형"@);
    let t2 = contains(b, "학생부종합"@) || contains(b, "종합전형"@) || contains(b, "종합형"@);
    let t3 = contains(b, "논술"@);
    let t4 = contains(b, "실기"@) || contains(b, "예체능"@);
    let s1 = tag_if(t1, l1);
    let s2 = s1 + tag_if(t2, l2);
    let s3 = s2 + tag_if(t3, l3);
    let s4 = s3 + tag_if(t4, l4);
    let t5 = contains(b, "정시"@) && s4.len() == 0;
    let s = s4 + tag_if(t5, l5);
    assert(s == selection_types_of(b));
    assert(Seq::<Seq<char>>::empty() + s1 =~= s1);
    lemma_tag_rank(Seq::empty(), t1, l1);
    lemma_tag_rank(s1, t2, l2);
    lemma_tag_rank(s2, t3, l3);
    lemma_tag_rank(s3, t4, l4);
    lemma_tag_rank(s4, t5, l5);
    assert(s4.len() == 0 <==> !t1 && !t2 && !t3 && !t4);
}

/// The admission round: 수시 whenever the name mentions 수시, else 정시
/// whenever it mentions 정시, else unknown.
pub proof fn lemma_track_keywords(stem: Seq<char>)
    ensures
        contains(stem, "수시"@) ==> track_of(stem) == Track::Susi,
        !contains(stem, "수시"@) && contains(stem, "정시"@) ==> track_of(stem) == Track::Jeongsi,
        !contains(stem, "수시"@) && !contains(stem, "정시"@) ==> track_of(stem) == Track::Unknown,
{
}

/// A year match gives the year it writes: the match of a year `y`'s
/// decimal notation is `y`, and no match gives no year.
pub proof fn lemma_year_of_match(y: u32)
    ensures
        year_of_match(Some(decimal(y as nat))) == Some(y),
        year_of_match(None) is None,
{
    crate::text::lemma_decimal_round_trip(y as nat);
}

/// A name made of a university, the separator 'ㅣ' and anything after it
/// gives that university back, trimmed, whatever follows.
pub proof fn lemma_univ_before_separator(u: Seq<char>, rest: Seq<char>)
    requires
        !u.contains('\u{3163}'),
        trim(u).len() > 0,
    ensures
        univ_of_stem(u + seq!['\u{3163}'] + rest) == Some(trim(u)),
{
    let stem = u + seq!['\u{3163}'] + rest;
    assert forall|k: int| 0 <= k < u.len() implies stem[k] != '\u{3163}' by {
        assert(stem[k] == u[k]);
    }
    assert(stem[u.len() as int] == '\u{3163}');
    lemma_char_position(stem, '\u{3163}', u.len() as int);
    assert(stem.take(u.len() as int) =~= u);
    lemma_trim_idempotent(u);
}

/// A name without the separator 'ㅣ' whose first token `t` (up to white
/// space, '_', '-', '[' or ']', or the end) ends in 대 or 교 gives `t` as the
/// university; with any other first token it gives none.
pub proof fn lemma_univ_first_token(t: Seq<char>, tail: Seq<char>)
    requires
        forall|k: int|
            0 <= k < t.len() ==> !is_white_space(#[trigger] t[k]) && t[k] != '_' && t[k] != '-'
                && t[k] != '[' && t[k] != ']' && t[k] != '\u{3163}',
        tail.len() == 0 || is_white_space(tail[0]) || tail[0] == '_' || tail[0] == '-' || tail[0]
            == '[' || tail[0] == ']',
        !tail.contains('\u{3163}'),
    ensures
        univ_of_stem(t + tail) == (if ends_with(t, "대"@) || ends_with(t, "교"@) {
            Some(t)
        } else {
            None
        }),
{
    let stem = t + tail;
    assert forall|k: int| 0 <= k < stem.len() implies stem[k] != '\u{3163}' by {
        if k < t.len() {
            assert(stem[k] == t[k]);
        } else {
            assert(stem[k] == tail[k - t.len()]);
        }
    }
    lemma_char_position(stem, '\u{3163}', stem.len() as int);
    assert forall|k: int| 0 <= k < t.len() implies !is_token_separator(#[trigger] stem[k]) by {
        assert(stem[k] == t[k]);
    }
    if tail.len() > 0 {
        assert(stem[t.len() as int] == tail[0]);
    }
    lemma_token_end(stem, t.len() as int);
    assert(first_token(stem) =~= t);
    if t.len() > 0 {
        assert(!is_white_space(t[0]));
        assert(trim_start(t) == t);
        assert(!is_white_space(t.last()));
        assert(trim_end(t) == t);
    } else {
        assert(trim_start(t) == t);
        assert(trim_end(t) == t);
    }
}

/// The folder nearest the file that names a university gives it: a match
/// in the last folder wins, a folder without a match is passed over, and
/// without any match there is none.
pub proof fn lemma_folder_nearest(ms: Seq<Option<Seq<char>>>, m: Seq<char>)
    ensures
        univ_of_folder_matches(ms.push(Some(m))) == Some(trim(m)),
        univ_of_folder_matches(ms.push(None)) == univ_of_folder_matches(ms),
        (forall|i: int| 0 <= i < ms.len() ==> #[trigger] ms[i] is None) ==> univ_of_folder_matches(
            ms,
        ) is None,
    decreases ms.len(),
{
    assert(ms.push(None).drop_last() =~= ms);
    if ms.len() > 0 {
        lemma_folder_nearest(ms.drop_last(), m);
        if forall|i: int| 0 <= i < ms.len() ==> #[trigger] ms[i] is None {
            assert(ms.last() is None);
            assert forall|i: int| 0 <= i < ms.drop_last().len() implies #[trigger] ms.drop_last()[i] is None by {
                assert(ms.drop_last()[i] == ms[i]);
            }
        }
    }
}

/// The ranks of `a` ascend strictly.
spec fn ranks_ascending(a: Seq<Seq<char>>) -> bool {
    forall|i: int, j: int|
        0 <= i < j < a.len() ==> selection_rank(#[trigger] a[i]) < selection_rank(#[trigger] a[j])
}

/// Appending a tag of higher rank keeps the ranks ascending, and the tag is
/// found after it exactly when it was added.
proof fn lemma_tag_rank(a: Seq<Seq<char>>, p: bool, l: Seq<char>)
    requires
        ranks_ascending(a),
        forall|i: int| 0 <= i < a.len() ==> selection_rank(#[trigger] a[i]) < selection_rank(l),
    ensures
        ranks_ascending(a + tag_if(p, l)),
        forall|i: int| 0 <= i < (a + tag_if(p, l)).len() ==> selection_rank(#[trigger] (a + tag_if(p, l))[i]) <= selection_rank(l),
        forall|x: Seq<char>| #[trigger] (a + tag_if(p, l)).contains(x) <==> (a.contains(x) || (p && x == l)),
        (a + tag_if(p, l)).len() == a.len() + (if p { 1int } else { 0int }),
{
    let c = a + tag_if(p, l);
    assert forall|x: Seq<char>| #[trigger] c.contains(x) <==> (a.contains(x) || (p && x == l)) by {
        if c.contains(x) {
            let i = choose|i: int| 0 <= i < c.len() && c[i] == x;
            if i >= a.len() {
                assert(p && x == l);
            } else {
                assert(a[i] == x);
            }
        }
        if a.contains(x) {
            let i = choose|i: int| 0 <= i < a.len() && a[i] == x;
            assert(c[i] == x);
        }
        if p && x == l {
            assert(c[a.len() as int] == x);
        }
    }
    assert forall|i: int, j: int| 0 <= i < j < c.len() implies selection_rank(#[trigger] c[i]) < selection_rank(#[trigger] c[j]) by {
        if j >= a.len() {
            assert(c[i] == a[i]);
        } else {
            assert(c[i] == a[i] && c[j] == a[j]);
        }
    }
    assert forall|i: int| 0 <= i < c.len() implies selection_rank(#[trigger] c[i]) <= selection_rank(l) by {
        if i < a.len() {
            assert(c[i] == a[i]);
        }
    }
}

// ---------------------------------------------------------------------------
// Lemmas
// ---------------------------------------------------------------------------

proof fn lemma_char_position(s: Seq<char>, c: char, i: int)
    requires
        0 <= i <= s.len(),
        forall|k: int| 0 <= k < i ==> s[k] != c,
        i == s.len() || s[i] == c,
    ensures
        char_position(s, c) == i,
    decreases i,
{
    if i > 0 {
        let t = s.drop_first();
        assert forall|k: int| 0 <= k < i - 1 implies t[k] != c by {
            assert(t[k] == s[k + 1]);
        }
        lemma_char_position(t, c, i - 1);
    }
}

proof fn lemma_token_end(s: Seq<char>, i: int)
    requires
        0 <= i <= s.len(),
        forall|k: int| 0 <= k < i ==> !is_token_separator(#[trigger] s[k]),
        i == s.len() || is_token_separator(s[i]),
    ensures
        token_end(s) == i,
    decreases i,
{
    if i > 0 {
        let t = s.drop_first();
        assert forall|k: int| 0 <= k < i - 1 implies !is_token_separator(#[trigger] t[k]) by {
            assert(t[k] == s[k + 1]);
        }
        if i - 1 < t.len() {
            assert(t[i - 1] == s[i]);
        }
        lemma_token_end(t, i - 1);
    }
}

/// A university read from a file name is already trimmed: normalizing it
/// again changes nothing.
pub proof fn lemma_univ_of_stem_is_trimmed(stem: Seq<char>)
    ensures
        univ_of_stem(stem) matches Some(u) ==> trim(u) == u,
{
    let p = char_position(stem, univ_separator());
    lemma_trim_idempotent(stem.take(p as int));
    lemma_trim_idempotent(first_token(stem));
    lemma_trim_idempotent(trim(stem.take(p as int)));
}

// ---------------------------------------------------------------------------
// Executable functions
// ---------------------------------------------------------------------------

/// Normalizes a university name (trims it).
pub fn normalize_univ(s: &str) -> (res: String)
    ensures
        res@ == normalized_univ(s@),
{
    trim_to_string(s)
}

/// The university that a file name states (see `univ_of_stem`).
pub fn extract_univ(stem: &str) -> (res: Option<String>)
    ensures
        res.deep_view() == univ_of_stem(stem@),
{
    let cs = chars_of(stem);
    let n = cs.len();
    let sep = '\u{3163}';
    let found = find_char(&cs, sep);
    match found {
        Some(idx) => {
            proof {
                lemma_char_position(stem@, sep, idx as int);
            }
            let head = trim_to_string(stem.substring_char(0, idx));
            if !head.as_str().is_empty() {
                return Some(normalize_univ(head.as_str()));
            }
        },
        None => {
            proof {
                lemma_char_position(stem@, sep, n as int);
            }
        },
    }
    let mut k: usize = 0;
    while k < n && !(is_whitespace(cs[k]) || cs[k] == '_' || cs[k] == '-' || cs[k] == '['
        || cs[k] == ']')
        invariant
            k <= n,
            n == cs@.len(),
            cs@ == stem@,
            forall|q: int| 0 <= q < k ==> !is_token_separator(#[trigger] stem@[q]),
        decreases n - k,
    {
        k += 1;
    }
    proof {
        lemma_token_end(stem@, k as int);
    }
    let token = stem.substring_char(0, k);
    assert(token@ == first_token(stem@));
    if ends_with_str(token, "대") || ends_with_str(token, "교") {
        Some(normalize_univ(token))
    } else {
        None
    }
}

/// The university found in folder names, given each folder's match of the
/// university pattern (see `univ_of_folder_matches`).
pub fn guess_univ_from_matches(matches: &Vec<Option<String>>) -> (res: Option<String>)
    ensures
        res.deep_view() == univ_of_folder_matches(matches.deep_view()),
{
    let mut i: usize = matches.len();
    assert(matches.deep_view().take(i as int) =~= matches.deep_view());
    while i > 0
        invariant
            i <= matches@.len(),
            univ_of_folder_matches(matches.deep_view()) == univ_of_folder_matches(
                matches.deep_view().take(i as int),
            ),
        decreases i,
    {
        let ghost ms = matches.deep_view().take(i as int);
        assert(ms.drop_last() =~= matches.deep_view().take(i - 1));
        match &matches[i - 1] {
            Some(m) => {
                return Some(normalize_univ(m.as_str()));
            },
            None => {},
        }
        i -= 1;
    }
    None
}

/// The university found in the folder names nearest the file.
pub fn guess_univ_from_components(components: &[String]) -> (res: Option<String>)
    ensures
        res.deep_view() == univ_of_folder_matches(folder_matches(components@)),
{
    let pattern = "([가-힣A-Za-z]+(?:대학교|대))";
    let mut i: usize = components.len();
    let ghost ms = folder_matches(components@);
    assert(ms.take(i as int) =~= ms);
    assert(pattern@ == univ_pattern());
    while i > 0
        invariant
            i <= components@.len(),
            ms == folder_matches(components@),
            pattern@ == univ_pattern(),
            univ_of_folder_matches(ms) == univ_of_folder_matches(ms.take(i as int)),
        decreases i,
    {
        assert(ms.take(i as int).drop_last() =~= ms.take(i - 1));
        let m = first_match(pattern, components[i - 1].as_str());
        assert(m.deep_view() == ms[i - 1]);
        match m {
            Some(t) => {
                return Some(normalize_univ(t.as_str()));
            },
            None => {},
        }
        i -= 1;
    }
    None
}

/// The year given by a year-pattern match.
pub fn year_from_match(m: &Option<String>) -> (res: Option<u32>)
    ensures
        res == year_of_match(m.deep_view()),
{
    match m {
        Some(t) => parse_u32_exec(t.as_str()),
        None => None,
    }
}

/// The admission round a file name states.
pub fn track_from_stem(stem: &str) -> (res: Track)
    ensures
        res == track_of(stem@),
{
    if contains_str(stem, "수시") {
        Track::Susi
    } else if contains_str(stem, "정시") {
        Track::Jeongsi
    } else {
        Track::Unknown
    }
}

/// Appends `label` to `v` when `present`.
fn push_tag(v: &mut Vec<String>, present: bool, label: &str)
    ensures
        final(v).deep_view() == old(v).deep_view() + tag_if(present, label@),
{
    if present {
        v.push(String::from_str(label));
    }
    assert(final(v).deep_view() =~= old(v).deep_view() + tag_if(present, label@));
}

/// The selection types a file name mentions.
pub fn selection_types_from_stem(b: &str) -> (res: Vec<String>)
    ensures
        res.deep_view() == selection_types_of(b@),
{
    let mut v: Vec<String> = Vec::new();
    assert(v.deep_view() =~= Seq::<Seq<char>>::empty());
    let t1 = contains_str(b, "학생부교과") || contains_str(b, "교과전형") || contains_str(b, "교과형");
    push_tag(&mut v, t1, "학생부교과");
    let t2 = contains_str(b, "학생부종합") || contains_str(b, "종합전형") || contains_str(b, "종합형");
    push_tag(&mut v, t2, "학생부종합");
    let t3 = contains_str(b, "논술");
    push_tag(&mut v, t3, "논술");
    let t4 = contains_str(b, "실기") || contains_str(b, "예체능");
    push_tag(&mut v, t4, "실기/예체능");
    let t5 = contains_str(b, "정시") && v.len() == 0;
    push_tag(&mut v, t5, "정시");
    assert(v.deep_view() =~= selection_types_of(b@));
    v
}

/// Reads a file name given the two pattern matches it needs: `year_match`,
/// the year-pattern match in `filename_stem`, and `folder_matches`, the
/// university-pattern match of each folder above the file.
pub fn parse_with_matches(
    filename_stem: &str,
    year_match: &Option<String>,
    folder_matches: &Vec<Option<String>>,
) -> (res: ParsedName)
    ensures
        res.univ.deep_view() == (match univ_of_stem(filename_stem@) {
            Some(u) => Some(u),
            None => univ_of_folder_matches(folder_matches.deep_view()),
        }),
        res.year == year_of_match(year_match.deep_view()),
        res.track == track_of(filename_stem@),
        res.selection_types.deep_view() == selection_types_of(filename_stem@),
{
    let univ = match extract_univ(filename_stem) {
        Some(u) => Some(u),
        None => guess_univ_from_matches(folder_matches),
    };
    ParsedName {
        univ,
        year: year_from_match(year_match),
        track: track_from_stem(filename_stem),
        selection_types: selection_types_from_stem(filename_stem),
    }
}

/// Reads university, year, admission round and selection types from a file
/// name (`filename_stem`) and the folders above it (`path_components`).
pub fn parse(path_components: &[String], filename_stem: &str) -> (res: ParsedName)
    ensures
        res.univ.deep_view() == (match univ_of_stem(filename_stem@) {
            Some(u) => Some(u),
            None => univ_of_folder_matches(folder_matches(path_components@)),
        }),
        res.year == year_of_match(regex_find(year_pattern(), filename_stem@)),
        res.track == track_of(filename_stem@),
        res.selection_types.deep_view() == selection_types_of(filename_stem@),
{
    let univ = match extract_univ(filename_stem) {
        Some(u) => Some(u),
        None => guess_univ_from_components(path_components),
    };
    let year_match = first_match("(20\\d{2})", filename_stem);
    ParsedName {
        univ,
        year: year_from_match(&year_match),
        track: track_from_stem(filename_stem),
        selection_types: selection_types_from_stem(filename_stem),
    }
}

} // verus!
