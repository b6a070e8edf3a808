//! Clean-up of extracted rows, and the stable document id.
use crate::model::{F32Bits, Row, Track};
use crate::text::{decimal, hex_lower, hex_lower_string, push_decimal, trim, trim_to_string};
use vstd::prelude::*;
use vstd::utf8::encode_utf8;
use sha2::Digest;

verus! {

// ---------------------------------------------------------------------------
// Grades
// ---------------------------------------------------------------------------

/// `b` encodes a number in [1.0, 9.5], the range in which polishing keeps a
/// grade (anything else is noise). A kept grade above 9 is still abnormal:
/// the sanity check of `validate` flags it.
///
/// 0x3F80_0000 encodes 1.0 and 0x4118_0000 encodes 9.5. Encodings of
/// non-negative numbers are ordered as the numbers are; every encoding with
/// the sign bit set, and every NaN or infinity, lies outside this range.
pub open spec fn is_grade_bits(b: u32) -> bool {
    0x3F80_0000 <= b <= 0x4118_0000
}

/// A grade kept only when it lies in the grade range.
pub open spec fn grade_kept(g: Option<F32Bits>) -> Option<F32Bits> {
    match g {
        Some(x) => if is_grade_bits(x.bits) {
            g
        } else {
            None
        },
        None => None,
    }
}

/// A grade that is absent or in range.
pub open spec fn grade_ok(g: Option<F32Bits>) -> bool {
    match g {
        Some(x) => is_grade_bits(x.bits),
        None => true,
    }
}

/// `(1.0..=9.5).contains(&g)` on the number that `g` encodes.
pub fn is_grade(g: F32Bits) -> (b: bool)
    ensures
        b == is_grade_bits(g.bits),
{
    0x3F80_0000 <= g.bits && g.bits <= 0x4118_0000
}

/// Keeps a grade only when it is in range.
fn keep_grade(g: Option<F32Bits>) -> (res: Option<F32Bits>)
    ensures
        res == grade_kept(g),
{
    match g {
        Some(x) => if is_grade(x) {
            Some(x)
        } else {
            None
        },
        None => None,
    }
}

// ---------------------------------------------------------------------------
// Polishing rows
// ---------------------------------------------------------------------------

/// The rows that name a department (its text is not empty).
pub open spec fn kept_rows(rows: Seq<Row>) -> Seq<Row>
    decreases rows.len(),
{
    if rows.len() == 0 {
        rows
    } else if rows.last().department@.len() > 0 {
        kept_rows(rows.drop_last()).push(rows.last())
    } else {
        kept_rows(rows.drop_last())
    }
}

/// `out` is `r` with its department trimmed and its out-of-range grades
/// dropped; everything else is as in `r`.
pub open spec fn is_polished_from(out: Row, r: Row) -> bool {
    &&& out.department@ == trim(r.department@)
    &&& out.selection == r.selection
    &&& out.applicants == r.applicants
    &&& out.competition_rate == r.competition_rate
    &&& out.grade_50pct == grade_kept(r.grade_50pct)
    &&& out.grade_70pct == grade_kept(r.grade_70pct)
    &&& out.grade_avg == grade_kept(r.grade_avg)
    &&& out.grade_min == grade_kept(r.grade_min)
    &&& out.raw_cells == r.raw_cells
    &&& out.extraction_confidence == r.extraction_confidence
    &&& out.page == r.page
}

/// `out` is `rows` polished: one polished row for each row with a department,
/// in order.
pub open spec fn is_polished(out: Seq<Row>, rows: Seq<Row>) -> bool {
    &&& out.len() == kept_rows(rows).len()
    &&& forall|i: int| 0 <= i < out.len() ==> is_polished_from(#[trigger] out[i], kept_rows(rows)[i])
}

/// All four grades of `r` are absent or in range.
pub open spec fn grades_in_range(r: Row) -> bool {
    grade_ok(r.grade_50pct) && grade_ok(r.grade_70pct) && grade_ok(r.grade_avg) && grade_ok(
        r.grade_min,
    )
}

/// Polishing keeps no grade out of range: every polished row has its grades
/// absent or within [1.0, 9.5].
pub proof fn lemma_polished_grades_in_range(out: Seq<Row>, rows: Seq<Row>)
    requires
        is_polished(out, rows),
    ensures
        forall|i: int| 0 <= i < out.len() ==> grades_in_range(#[trigger] out[i]),
{
    assert forall|i: int| 0 <= i < out.len() implies grades_in_range(#[trigger] out[i]) by {
        assert(is_polished_from(out[i], kept_rows(rows)[i]));
    }
}

/// What polishing does to one row: its department is trimmed; each of its
/// four grades is kept exactly when it lies in [1.0, 9.5] (encodings
/// 0x3F80_0000 to 0x4118_0000) and is dropped otherwise; a grade is never
/// made up; everything else stays as it was.
pub proof fn lemma_polish_row(out: Row, r: Row)
    requires
        is_polished_from(out, r),
    ensures
        out.department@ == trim(r.department@),
        (r.grade_50pct matches Some(g) && 0x3F80_0000 <= g.bits <= 0x4118_0000) ==> out.grade_50pct == r.grade_50pct,
        (r.grade_70pct matches Some(g) && 0x3F80_0000 <= g.bits <= 0x4118_0000) ==> out.grade_70pct == r.grade_70pct,
        (r.grade_avg matches Some(g) && 0x3F80_0000 <= g.bits <= 0x4118_0000) ==> out.grade_avg == r.grade_avg,
        (r.grade_min matches Some(g) && 0x3F80_0000 <= g.bits <= 0x4118_0000) ==> out.grade_min == r.grade_min,
        (r.grade_50pct matches Some(g) && !(0x3F80_0000 <= g.bits <= 0x4118_0000)) ==> out.grade_50pct is None,
        (r.grade_70pct matches Some(g) && !(0x3F80_0000 <= g.bits <= 0x4118_0000)) ==> out.grade_70pct is None,
        (r.grade_avg matches Some(g) && !(0x3F80_0000 <= g.bits <= 0x4118_0000)) ==> out.grade_avg is None,
        (r.grade_min matches Some(g) && !(0x3F80_0000 <= g.bits <= 0x4118_0000)) ==> out.grade_min is None,
        r.grade_50pct is None ==> out.grade_50pct is None,
        r.grade_70pct is None ==> out.grade_70pct is None,
        r.grade_avg is None ==> out.grade_avg is None,
        r.grade_min is None ==> out.grade_min is None,
        out.selection == r.selection,
        out.applicants == r.applicants,
        out.competition_rate == r.competition_rate,
        out.raw_cells == r.raw_cells,
        out.extraction_confidence == r.extraction_confidence,
        out.page == r.page,
{
}

/// Which rows polishing keeps: exactly the rows whose department is not
/// empty, each once and in their order. So a row with a department is never
/// dropped, and the rows kept from `rows` followed by one more row are those
/// kept from `rows`, then that row if it has a department.
pub proof fn lemma_polish_keeps_named_rows(rows: Seq<Row>, r: Row)
    ensures
        forall|i: int| 0 <= i < kept_rows(rows).len() ==> (#[trigger] kept_rows(rows)[i]).department@.len() > 0,
        (forall|i: int| 0 <= i < rows.len() ==> (#[trigger] rows[i]).department@.len() > 0) ==> kept_rows(rows) == rows,
        r.department@.len() > 0 ==> kept_rows(rows.push(r)) == kept_rows(rows).push(r),
        r.department@.len() == 0 ==> kept_rows(rows.push(r)) == kept_rows(rows),
{
    lemma_kept_rows_in(rows);
    if forall|i: int| 0 <= i < rows.len() ==> (#[trigger] rows[i]).department@.len() > 0 {
        lemma_kept_rows_all(rows);
    }
    assert(rows.push(r).drop_last() =~= rows);
}

/// No more rows are kept than there are.
pub proof fn lemma_kept_rows_len(rows: Seq<Row>)
    ensures
        kept_rows(rows).len() <= rows.len(),
    decreases rows.len(),
{
    if rows.len() > 0 {
        lemma_kept_rows_len(rows.drop_last());
    }
}

/// Every row with a department is among the rows kept.
pub proof fn lemma_kept_rows_contains(rows: Seq<Row>, i: int)
    requires
        0 <= i < rows.len(),
        rows[i].department@.len() > 0,
    ensures
        kept_rows(rows).contains(rows[i]),
    decreases rows.len(),
{
    let pre = rows.drop_last();
    if i == rows.len() - 1 {
        assert(kept_rows(rows).last() == rows[i]);
    } else {
        assert(pre[i] == rows[i]);
        lemma_kept_rows_contains(pre, i);
        let j = choose|j: int| 0 <= j < kept_rows(pre).len() && kept_rows(pre)[j] == rows[i];
        if rows.last().department@.len() > 0 {
            assert(kept_rows(rows)[j] == rows[i]);
        }
    }
}

/// Rows kept are exactly those with a department, in order.
proof fn lemma_kept_rows_all(rows: Seq<Row>)
    requires
        forall|i: int| 0 <= i < rows.len() ==> (#[trigger] rows[i]).department@.len() > 0,
    ensures
        kept_rows(rows) == rows,
    decreases rows.len(),
{
    if rows.len() > 0 {
        let pre = rows.drop_last();
        assert forall|i: int| 0 <= i < pre.len() implies (#[trigger] pre[i]).department@.len() > 0 by {
            assert(pre[i] == rows[i]);
        }
        lemma_kept_rows_all(pre);
        assert(pre.push(rows.last()) =~= rows);
    }
}

/// Polishing polished rows changes nothing, when no department is white
/// space only: departments stay as trimmed and kept grades stay in range.
pub proof fn lemma_polish_idempotent(rows: Seq<Row>, once: Seq<Row>, twice: Seq<Row>)
    requires
        is_polished(once, rows),
        is_polished(twice, once),
        forall|i: int|
            0 <= i < rows.len() && (#[trigger] rows[i]).department@.len() > 0 ==> trim(
                rows[i].department@,
            ).len() > 0,
    ensures
        twice.len() == once.len(),
        forall|i: int|
            0 <= i < twice.len() ==> (#[trigger] twice[i]).department@ == once[i].department@
                && twice[i].selection == once[i].selection && twice[i].applicants
                == once[i].applicants && twice[i].competition_rate == once[i].competition_rate
                && twice[i].grade_50pct == once[i].grade_50pct && twice[i].grade_70pct
                == once[i].grade_70pct && twice[i].grade_avg == once[i].grade_avg
                && twice[i].grade_min == once[i].grade_min && twice[i].raw_cells
                == once[i].raw_cells && twice[i].extraction_confidence
                == once[i].extraction_confidence && twice[i].page == once[i].page,
{
    lemma_kept_rows_in(rows);
    assert forall|i: int| 0 <= i < once.len() implies (#[trigger] once[i]).department@.len() > 0 by {
        assert(is_polished_from(once[i], kept_rows(rows)[i]));
        let j = choose|j: int| 0 <= j < rows.len() && rows[j] == kept_rows(rows)[i];
        assert(rows[j].department@.len() > 0);
    }
    lemma_kept_rows_all(once);
    assert forall|i: int| 0 <= i < twice.len() implies (#[trigger] twice[i]).department@
        == once[i].department@ by {
        assert(is_polished_from(twice[i], once[i]));
        assert(is_polished_from(once[i], kept_rows(rows)[i]));
        crate::text::lemma_trim_idempotent(kept_rows(rows)[i].department@);
    }
    assert forall|i: int| 0 <= i < twice.len() implies (#[trigger] twice[i]).grade_50pct
        == once[i].grade_50pct && twice[i].grade_70pct == once[i].grade_70pct
        && twice[i].grade_avg == once[i].grade_avg && twice[i].grade_min == once[i].grade_min by {
        assert(is_polished_from(twice[i], once[i]));
        assert(is_polished_from(once[i], kept_rows(rows)[i]));
    }
}

/// Every kept row is a row of the input, with a department.
pub proof fn lemma_kept_rows_in(rows: Seq<Row>)
    ensures
        forall|i: int|
            0 <= i < kept_rows(rows).len() ==> exists|j: int|
                0 <= j < rows.len() && rows[j] == #[trigger] kept_rows(rows)[i],
        forall|i: int|
            0 <= i < kept_rows(rows).len() ==> (#[trigger] kept_rows(rows)[i]).department@.len()
                > 0,
    decreases rows.len(),
{
    if rows.len() > 0 {
        let pre = rows.drop_last();
        lemma_kept_rows_in(pre);
        let k = kept_rows(rows);
        assert forall|i: int| 0 <= i < k.len() implies exists|j: int|
            0 <= j < rows.len() && rows[j] == #[trigger] k[i] by {
            if i < kept_rows(pre).len() {
                let j = choose|j: int| 0 <= j < pre.len() && pre[j] == kept_rows(pre)[i];
                assert(rows[j] == k[i]);
            } else {
                assert(rows[rows.len() - 1] == k[i]);
            }
        }
    }
}

/// Drops the rows without a department, trims each department and drops
/// every grade outside [1.0, 9.5] (noise).
pub fn polish(rows: Vec<Row>) -> (res: Vec<Row>)
    ensures
        is_polished(res@, rows@),
{
    let ghost input = rows@;
    let mut res: Vec<Row> = Vec::new();
    for r in it: rows.into_iter()
        invariant
            it.seq() == input,
            is_polished(res@, input.take(it.index() as int)),
    {
        let ghost i = it.index();
        let ghost pre = input.take(i as int);
        assert(input.take(i + 1).drop_last() =~= pre);
        assert(input.take(i + 1).last() == r);
        if !r.department.as_str().is_empty() {
            let department = trim_to_string(r.department.as_str());
            let out = Row {
                department,
                selection: r.selection,
                applicants: r.applicants,
                competition_rate: r.competition_rate,
                grade_50pct: keep_grade(r.grade_50pct),
                grade_70pct: keep_grade(r.grade_70pct),
                grade_avg: keep_grade(r.grade_avg),
                grade_min: keep_grade(r.grade_min),
                raw_cells: r.raw_cells,
                extraction_confidence: r.extraction_confidence,
                page: r.page,
            };
            res.push(out);
            assert(kept_rows(input.take(i + 1)) == kept_rows(pre).push(r));
        } else {
            assert(kept_rows(input.take(i + 1)) == kept_rows(pre));
        }
    }
    assert(input.take(input.len() as int) =~= input);
    res
}

// ---------------------------------------------------------------------------
// Document id
// ---------------------------------------------------------------------------

/// The SHA-256 digest of `data`.
pub uninterp spec fn sha256_digest(data: Seq<u8>) -> Seq<u8>;

/// `sha2::Sha256` over `data` (`new`, `update`, `finalize`). Claimed: the
/// result is `sha256_digest(data)`, and it is 32 bytes long (the digest size
/// that `Sha256` declares).
#[verifier::external_body]
fn sha256(data: &[u8]) -> (res: Vec<u8>)
    ensures
        res@ == sha256_digest(data@),
        res@.len() == 32,
{
    let mut h = sha2::Sha256::new();
    h.update(data);
    h.finalize().to_vec()
}

/// The name of a track in ids.
pub open spec fn track_code(t: Track) -> Seq<char> {
    match t {
        Track::Susi => "susi"@,
        Track::Jeongsi => "jeongsi"@,
        Track::Unknown => "etc"@,
    }
}

/// The year, or 0 when unknown.
pub open spec fn year_or_zero(year: Option<u32>) -> nat {
    match year {
        Some(y) => y as nat,
        None => 0,
    }
}

/// The text that an id hashes: "univ|year|track".
pub open spec fn slug_basis(univ: Seq<char>, year: Option<u32>, track: Track) -> Seq<char> {
    univ + "|"@ + decimal(year_or_zero(year)) + "|"@ + track_code(track)
}

/// An id from the digest of its basis: "track-year-" and the first four
/// bytes of the digest in lower-case hex.
pub open spec fn slug_of_digest(year: Option<u32>, track: Track, digest: Seq<u8>) -> Seq<char> {
    track_code(track) + "-"@ + decimal(year_or_zero(year)) + "-"@ + hex_lower(digest.take(4))
}

/// The id of a document: `slug_of_digest` of the SHA-256 digest of the
/// UTF-8 bytes of `slug_basis`.
pub open spec fn slug_spec(univ: Seq<char>, year: Option<u32>, track: Track) -> Seq<char> {
    slug_of_digest(year, track, sha256_digest(encode_utf8(slug_basis(univ, year, track))))
}

/// A lower-case hexadecimal digit.
pub open spec fn is_lower_hex_digit(c: char) -> bool {
    ('0' <= c && c <= '9') || ('a' <= c && c <= 'f')
}

/// Hex notation has two digits a byte, each a lower-case hex digit.
pub proof fn lemma_hex_lower_shape(bytes: Seq<u8>)
    ensures
        hex_lower(bytes).len() == 2 * bytes.len(),
        forall|i: int| 0 <= i < hex_lower(bytes).len() ==> is_lower_hex_digit(#[trigger] hex_lower(bytes)[i]),
    decreases bytes.len(),
{
    if bytes.len() > 0 {
        let pre = bytes.drop_last();
        lemma_hex_lower_shape(pre);
        let h = hex_lower(bytes);
        let hi = (bytes.last() / 16) as nat;
        let lo = (bytes.last() % 16) as nat;
        assert forall|i: int| 0 <= i < h.len() implies is_lower_hex_digit(#[trigger] h[i]) by {
            if i < hex_lower(pre).len() {
                assert(h[i] == hex_lower(pre)[i]);
            } else {
                let d = if i == hex_lower(pre).len() { hi } else { lo };
                assert(h[i] == crate::text::hex_digit_char(d));
                assert(d < 16);
            }
        }
    }
}

/// The shape of an id: the track's name, '-', the year, '-' and eight hex
/// digits. Two ids for the same year and track have the same length and
/// differ at most in their last eight characters, whatever their digests
/// (SHA-256 digests are 32 bytes long).
pub proof fn lemma_slug_shape(year: Option<u32>, track: Track, d1: Seq<u8>, d2: Seq<u8>)
    requires
        d1.len() >= 4,
        d2.len() >= 4,
    ensures
        slug_of_digest(year, track, d1).len() == track_code(track).len() + decimal(
            year_or_zero(year),
        ).len() + 10,
        slug_of_digest(year, track, d1).len() == slug_of_digest(year, track, d2).len(),
        slug_of_digest(year, track, d1).subrange(
            0,
            slug_of_digest(year, track, d1).len() - 8,
        ) == track_code(track) + "-"@ + decimal(year_or_zero(year)) + "-"@,
        slug_of_digest(year, track, d1).subrange(0, slug_of_digest(year, track, d1).len() - 8)
            == slug_of_digest(year, track, d2).subrange(
            0,
            slug_of_digest(year, track, d2).len() - 8,
        ),
        forall|i: int|
            slug_of_digest(year, track, d1).len() - 8 <= i < slug_of_digest(year, track, d1).len()
                ==> is_lower_hex_digit(#[trigger] slug_of_digest(year, track, d1)[i]),
{
    lemma_hex_lower_shape(d1.take(4));
    lemma_hex_lower_shape(d2.take(4));
    reveal_strlit("-");
    let p = track_code(track) + "-"@ + decimal(year_or_zero(year)) + "-"@;
    let s1 = slug_of_digest(year, track, d1);
    let s2 = slug_of_digest(year, track, d2);
    assert(s1 == p + hex_lower(d1.take(4)));
    assert(s2 == p + hex_lower(d2.take(4)));
    assert(s1.subrange(0, s1.len() - 8) =~= p);
    assert(s2.subrange(0, s2.len() - 8) =~= p);
    assert forall|i: int| s1.len() - 8 <= i < s1.len() implies is_lower_hex_digit(#[trigger] s1[i]) by {
        assert(s1[i] == hex_lower(d1.take(4))[i - p.len()]);
    }
}

/// A missing year counts as year 0 in ids.
pub proof fn lemma_slug_missing_year(univ: Seq<char>, track: Track)
    ensures
        slug_spec(univ, None, track) == slug_spec(univ, Some(0), track),
{
}

/// Polishing works row by row: polishing two lists one after the other
/// gives the two polished lists joined.
pub proof fn lemma_polish_concat(a: Seq<Row>, oa: Seq<Row>, b: Seq<Row>, ob: Seq<Row>)
    requires
        is_polished(oa, a),
        is_polished(ob, b),
    ensures
        is_polished(oa + ob, a + b),
{
    lemma_kept_rows_concat(a, b);
    let o = oa + ob;
    assert forall|i: int| 0 <= i < o.len() implies is_polished_from(#[trigger] o[i], kept_rows(a + b)[i]) by {
        if i < oa.len() {
            assert(is_polished_from(oa[i], kept_rows(a)[i]));
        } else {
            assert(is_polished_from(ob[i - oa.len()], kept_rows(b)[i - oa.len()]));
        }
    }
}

/// The rows kept from two lists joined are those kept from each, joined.
pub proof fn lemma_kept_rows_concat(a: Seq<Row>, b: Seq<Row>)
    ensures
        kept_rows(a + b) == kept_rows(a) + kept_rows(b),
    decreases b.len(),
{
    if b.len() == 0 {
        assert(a + b =~= a);
        assert(kept_rows(a) + kept_rows(b) =~= kept_rows(a));
    } else {
        lemma_kept_rows_concat(a, b.drop_last());
        assert((a + b).drop_last() =~= a + b.drop_last());
        assert((a + b).last() == b.last());
        if b.last().department@.len() > 0 {
            assert(kept_rows(a) + kept_rows(b) =~= (kept_rows(a) + kept_rows(b.drop_last())).push(
                b.last(),
            ));
        }
    }
}

/// The name of `t` in ids.
fn track_str(t: &Track) -> (res: &'static str)
    ensures
        res@ == track_code(*t),
{
    match t {
        Track::Susi => "susi",
        Track::Jeongsi => "jeongsi",
        Track::Unknown => "etc",
    }
}

/// The year, or 0 when unknown.
fn year_or_zero_exec(year: Option<u32>) -> (res: u64)
    ensures
        res == year_or_zero(year),
{
    match year {
        Some(y) => y as u64,
        None => 0,
    }
}

/// The text that an id hashes.
pub fn slug_basis_string(univ: &str, year: Option<u32>, track: &Track) -> (res: String)
    ensures
        res@ == slug_basis(univ@, year, *track),
{
    let mut s = String::from_str(univ);
    s.append("|");
    push_decimal(&mut s, year_or_zero_exec(year));
    s.append("|");
    s.append(track_str(track));
    assert(s@ =~= slug_basis(univ@, year, *track));
    s
}

/// An id from the digest of its basis.
pub fn slug_from_digest(year: Option<u32>, track: &Track, digest: &[u8]) -> (res: String)
    requires
        digest@.len() >= 4,
    ensures
        res@ == slug_of_digest(year, *track, digest@),
{
    let mut prefix: Vec<u8> = Vec::new();
    let mut i: usize = 0;
    while i < 4
        invariant
            i <= 4,
            digest@.len() >= 4,
            prefix@ == digest@.take(i as int),
        decreases 4 - i,
    {
        prefix.push(digest[i]);
        assert(digest@.take(i + 1) =~= digest@.take(i as int).push(digest@[i as int]));
        i += 1;
    }
    let mut s = String::from_str(track_str(track));
    s.append("-");
    push_decimal(&mut s, year_or_zero_exec(year));
    s.append("-");
    let h = hex_lower_string(prefix.as_slice());
    s.append(h.as_str());
    assert(s@ =~= slug_of_digest(year, *track, digest@));
    s
}

/// The stable id of a document, from its university, year and track.
pub fn slug(univ: &str, year: Option<u32>, track: &Track) -> (res: String)
    ensures
        res@ == slug_spec(univ@, year, *track),
        sha256_digest(encode_utf8(slug_basis(univ@, year, *track))).len() == 32,
{
    let basis = slug_basis_string(univ, year, track);
    let digest = sha256(basis.as_str().as_bytes());
    slug_from_digest(year, track, digest.as_slice())
}

} // verus!
