//! Storage layout: date-partitioned directory paths, generated filenames,
//! and the confinement check that guards path-based deletion.

use vstd::prelude::*;
use vstd::string::*;
use crate::date::Date;
use crate::text::{spec_decimal, decimal_string, push_decimal, lemma_decimal_digits,
    lemma_decimal_injective};

verus! {

/// The date-partitioned directory of a date, spelled `year/month/day`
/// without zero padding.
pub open spec fn spec_dir_path(d: Date) -> Seq<char> {
    spec_decimal(d.year as int) + seq!['/'] + spec_decimal(d.month as int) + seq!['/']
        + spec_decimal(d.day as int)
}

/// The storage-relative path of a file named `filename` under the
/// directory of date `d`.
pub open spec fn spec_file_path(d: Date, filename: Seq<char>) -> Seq<char> {
    spec_dir_path(d) + seq!['/'] + filename
}

/// The generated name of a stored audio blob: `recording_<ts>.webm`,
/// keeping a `test_` prefix when the client's filename hint carried one.
pub open spec fn spec_filename(test_hint: bool, ts: int) -> Seq<char> {
    (if test_hint {
        "test_"@
    } else {
        Seq::<char>::empty()
    }) + "recording_"@ + spec_decimal(ts) + ".webm"@
}

/// Whether `p` is a prefix of `s`.
pub open spec fn spec_has_prefix(s: Seq<char>, p: Seq<char>) -> bool {
    p.len() <= s.len() && s.subrange(0, p.len() as int) == p
}

/// Whether `s` holds two consecutive dots, the mark of a
/// parent-directory segment.
pub open spec fn spec_has_dotdot(s: Seq<char>) -> bool {
    exists|i: int| 0 <= i && i + 1 < s.len() && #[trigger] s[i] == '.' && s[i + 1] == '.'
}

/// A client-supplied deletion path is confined to the storage root when it
/// starts with the serving prefix `/files/` and holds no parent-directory
/// segment.
pub open spec fn spec_confined(s: Seq<char>) -> bool {
    spec_has_prefix(s, "/files/"@) && !spec_has_dotdot(s)
}

/// Spells the date-partitioned directory of `d`.
pub fn dir_path_string(d: &Date) -> (r: String)
    ensures
        r@ == spec_dir_path(*d),
{
    proof {
        reveal_strlit("/");
    }
    let mut out = decimal_string(d.year as u64);
    out.append("/");
    push_decimal(&mut out, d.month as u64);
    out.append("/");
    push_decimal(&mut out, d.day as u64);
    proof {
        assert(out@ =~= spec_dir_path(*d));
    }
    out
}

/// Builds the generated filename of an upload: `recording_<ts>.webm`, with
/// a `test_` prefix when the client's filename hint starts with `test_`.
pub fn filename_for_upload(hint: &str, ts: u64) -> (r: String)
    ensures
        r@ == spec_filename(spec_has_prefix(hint@, "test_"@), ts as int),
{
    proof {
        reveal_strlit("test_");
        reveal_strlit("recording_");
        reveal_strlit(".webm");
    }
    let test_hint = str_has_prefix(hint, "test_");
    let mut out = String::new();
    if test_hint {
        out.append("test_");
    }
    out.append("recording_");
    push_decimal(&mut out, ts);
    out.append(".webm");
    proof {
        assert(out@ =~= spec_filename(test_hint, ts as int));
    }
    out
}

/// Joins the directory of `d` and `filename` into the storage-relative
/// path of the file.
pub fn file_path_string(d: &Date, filename: &str) -> (r: String)
    ensures
        r@ == spec_file_path(*d, filename@),
{
    proof {
        reveal_strlit("/");
    }
    let mut out = dir_path_string(d);
    out.append("/");
    out.append(filename);
    proof {
        assert(out@ =~= spec_file_path(*d, filename@));
    }
    out
}

/// Whether `p` is a prefix of `s`, compared character by character.
pub fn str_has_prefix(s: &str, p: &str) -> (r: bool)
    ensures
        r == spec_has_prefix(s@, p@),
{
    let np = p.unicode_len();
    let ns = s.unicode_len();
    if np > ns {
        return false;
    }
    let mut i: usize = 0;
    while i < np
        invariant
            0 <= i <= np,
            np == p@.len(),
            np <= ns == s@.len(),
            forall|j: int| 0 <= j < i ==> s@[j] == p@[j],
        decreases np - i,
    {
        if s.get_char(i) != p.get_char(i) {
            proof {
                assert(s@.subrange(0, np as int)[i as int] != p@[i as int]);
            }
            return false;
        }
        i += 1;
    }
    proof {
        assert(s@.subrange(0, np as int) =~= p@);
    }
    true
}

/// Whether `s` holds two consecutive dots.
pub fn str_has_dotdot(s: &str) -> (r: bool)
    ensures
        r == spec_has_dotdot(s@),
{
    let n = s.unicode_len();
    if n < 2 {
        return false;
    }
    let mut i: usize = 0;
    while i + 1 < n
        invariant
            0 <= i,
            i + 1 <= n == s@.len(),
            forall|j: int| 0 <= j < i ==> !(#[trigger] s@[j] == '.' && s@[j + 1] == '.'),
        decreases n - i,
    {
        if s.get_char(i) == '.' && s.get_char(i + 1) == '.' {
            return true;
        }
        i += 1;
    }
    false
}

/// The mandatory safety check of path-based deletion: accepts exactly the
/// paths that start with `/files/` and hold no parent-directory segment.
pub fn path_is_confined(path: &str) -> (r: bool)
    ensures
        r == spec_confined(path@),
{
    str_has_prefix(path, "/files/") && !str_has_dotdot(path)
}

/// Strips the serving prefix `/files/` from a confined path, leaving the
/// storage-relative path.
pub fn strip_files_prefix(path: &str) -> (r: String)
    requires
        spec_has_prefix(path@, "/files/"@),
    ensures
        r@ == path@.subrange("/files/"@.len() as int, path@.len() as int),
{
    proof {
        reveal_strlit("/files/");
    }
    let n = path.unicode_len();
    let rest = path.substring_char(7, n);
    String::from_str(rest)
}

/// The index of the last underscore of `s`, or -1 when it has none.
pub open spec fn spec_last_underscore(s: Seq<char>) -> int
    decreases s.len(),
{
    if s.len() == 0 {
        -1
    } else if s.last() == '_' {
        s.len() - 1
    } else {
        spec_last_underscore(s.drop_last())
    }
}

/// The index of the first dot of `s`, or its length when it has none.
pub open spec fn spec_first_dot(s: Seq<char>) -> int
    decreases s.len(),
{
    if s.len() == 0 {
        0
    } else if s[0] == '.' {
        0
    } else {
        1 + spec_first_dot(s.drop_first())
    }
}

/// The number that a digit string spells, read left to right; nothing
/// when a character is no digit or the value passes the largest `u64`.
pub open spec fn spec_parse_u64(s: Seq<char>) -> Option<int>
    decreases s.len(),
{
    if s.len() == 0 {
        Some(0)
    } else {
        match spec_parse_u64(s.drop_last()) {
            Some(v) => if crate::date::spec_is_digit(s.last()) {
                if v * 10 + crate::date::spec_digit_val(s.last()) <= u64::MAX {
                    Some(v * 10 + crate::date::spec_digit_val(s.last()))
                } else {
                    None
                }
            } else {
                None
            },
            None => None,
        }
    }
}

/// The timestamp spelled inside a generated filename: the digits between
/// the last underscore and the first dot. Nothing when the name lacks an
/// underscore or a dot, the span between them is empty or not all
/// digits, or the number passes the largest `u64`.
pub open spec fn spec_filename_timestamp(s: Seq<char>) -> Option<int> {
    let u = spec_last_underscore(s);
    let d = spec_first_dot(s);
    if 0 <= u && u + 1 < d && d < s.len() {
        spec_parse_u64(s.subrange(u + 1, d))
    } else {
        None
    }
}

/// A digit string with a non-digit in it spells no number.
proof fn lemma_parse_nondigit(s: Seq<char>, k: int)
    requires
        0 <= k < s.len(),
        !crate::date::spec_is_digit(s[k]),
    ensures
        spec_parse_u64(s) is None,
    decreases s.len(),
{
    if k == s.len() - 1 {
    } else {
        assert(s.drop_last()[k] == s[k]);
        lemma_parse_nondigit(s.drop_last(), k);
    }
}

/// Once a prefix spells no number, nothing extending it does.
proof fn lemma_parse_none_prefix(s: Seq<char>, k: int)
    requires
        0 <= k <= s.len(),
        spec_parse_u64(s.take(k)) is None,
    ensures
        spec_parse_u64(s) is None,
    decreases s.len() - k,
{
    if k == s.len() {
        assert(s.take(k) =~= s);
    } else {
        assert(s.take(k + 1).drop_last() =~= s.take(k));
        lemma_parse_none_prefix(s, k + 1);
    }
}

/// Reads the timestamp out of a generated filename: the digits between
/// the last underscore and the first dot, as the recording history shows
/// an upload's time of day. Nothing comes back for a name without that
/// span or whose digits pass the largest `u64`.
pub fn timestamp_in_filename(name: &str) -> (r: Option<u64>)
    ensures
        match r {
            Some(v) => spec_filename_timestamp(name@) == Some(v as int),
            None => spec_filename_timestamp(name@) is None,
        },
{
    let n = name.unicode_len();
    proof {
        assert(name@.take(n as int) =~= name@);
    }
    let mut i: usize = n;
    while i > 0 && name.get_char(i - 1) != '_'
        invariant
            0 <= i <= n,
            n == name@.len(),
            spec_last_underscore(name@) == spec_last_underscore(name@.take(i as int)),
        decreases i,
    {
        proof {
            assert(name@.take(i as int).drop_last() =~= name@.take(i - 1));
            assert(name@.take(i as int).last() == name@[i - 1]);
        }
        i -= 1;
    }
    proof {
        if i == 0 {
            assert(name@.take(0) =~= Seq::<char>::empty());
        } else {
            assert(name@.take(i as int).last() == name@[i - 1]);
        }
    }
    if i == 0 {
        return None;
    }
    let under = i - 1;

    let mut d: usize = 0;
    proof {
        assert(name@.skip(0) =~= name@);
    }
    while d < n && name.get_char(d) != '.'
        invariant
            0 <= d <= n,
            n == name@.len(),
            spec_first_dot(name@) == d + spec_first_dot(name@.skip(d as int)),
        decreases n - d,
    {
        proof {
            assert(name@.skip(d as int)[0] == name@[d as int]);
            assert(name@.skip(d as int).drop_first() =~= name@.skip(d + 1));
        }
        d += 1;
    }
    proof {
        if d < n {
            assert(name@.skip(d as int)[0] == name@[d as int]);
            assert(spec_first_dot(name@.skip(d as int)) == 0);
        } else {
            assert(name@.skip(d as int) =~= Seq::<char>::empty());
        }
        assert(spec_first_dot(name@) == d);
    }

    if under + 1 >= d || d == n {
        return None;
    }
    let ghost digits = name@.subrange(under + 1, d as int);
    let mut acc: u64 = 0;
    let mut j: usize = under + 1;
    proof {
        assert(digits.take(0) =~= Seq::<char>::empty());
    }
    while j < d
        invariant
            under + 1 <= j <= d,
            under + 1 < d,
            d < n == name@.len(),
            spec_last_underscore(name@) == under as int,
            spec_first_dot(name@) == d as int,
            digits == name@.subrange(under + 1, d as int),
            spec_parse_u64(digits.take(j - under - 1)) == Some(acc as int),
        decreases d - j,
    {
        let c = name.get_char(j);
        let cv = c as u32;
        proof {
            assert(digits.take(j - under) =~= digits.take(j - under - 1).push(name@[j as int]));
            assert(digits.take(j - under).drop_last() =~= digits.take(j - under - 1));
            assert(digits.take(j - under).last() == name@[j as int]);
        }
        if cv < 48 || cv > 57 {
            proof {
                assert(digits[j - under - 1] == name@[j as int]);
                lemma_parse_nondigit(digits, j - under - 1);
            }
            return None;
        }
        let dv = (cv - 48) as u64;
        if acc > (u64::MAX - dv) / 10 {
            proof {
                assert(spec_parse_u64(digits.take(j - under)) is None);
                lemma_parse_none_prefix(digits, j - under);
            }
            return None;
        }
        acc = acc * 10 + dv;
        j += 1;
    }
    proof {
        assert(digits.take(d - under - 1) =~= digits);
    }
    Some(acc)
}

/// Appending underscore-free text does not move the last underscore.
proof fn lemma_last_underscore_append(a: Seq<char>, b: Seq<char>)
    requires
        forall|i: int| 0 <= i < b.len() ==> b[i] != '_',
    ensures
        spec_last_underscore(a + b) == spec_last_underscore(a),
    decreases b.len(),
{
    if b.len() == 0 {
        assert(a + b =~= a);
    } else {
        assert((a + b).last() == b.last());
        assert((a + b).drop_last() =~= a + b.drop_last());
        lemma_last_underscore_append(a, b.drop_last());
    }
}

/// Prepending dot-free text moves the first dot by its length.
proof fn lemma_first_dot_append(a: Seq<char>, b: Seq<char>)
    requires
        forall|i: int| 0 <= i < a.len() ==> a[i] != '.',
    ensures
        spec_first_dot(a + b) == a.len() + spec_first_dot(b),
    decreases a.len(),
{
    if a.len() == 0 {
        assert(a + b =~= b);
    } else {
        assert((a + b)[0] == a[0]);
        assert((a + b).drop_first() =~= a.drop_first() + b);
        lemma_first_dot_append(a.drop_first(), b);
    }
}

/// Reading back the decimal spelling of a `u64` yields the number.
proof fn lemma_parse_decimal(n: u64)
    ensures
        spec_parse_u64(spec_decimal(n as int)) == Some(n as int),
    decreases n,
{
    let s = spec_decimal(n as int);
    if n < 10 {
        assert(s == seq![crate::text::spec_digit_char(n as int)]);
        assert(s.len() == 1);
        assert(s.last() == crate::text::spec_digit_char(n as int));
        assert(s.drop_last() =~= Seq::<char>::empty());
        assert(spec_parse_u64(s.drop_last()) == Some(0int));
        lemma_digit_char_val(n as int);
        assert(spec_parse_u64(s) == Some(n as int));
    } else {
        lemma_parse_decimal(n / 10);
        assert((n / 10) as int == n as int / 10);
        assert(s == spec_decimal(n as int / 10).push(
            crate::text::spec_digit_char(n as int % 10),
        ));
        assert(s.last() == crate::text::spec_digit_char(n as int % 10));
        assert(s.drop_last() =~= spec_decimal(n as int / 10));
        assert(spec_parse_u64(s.drop_last()) == Some(n as int / 10));
        lemma_digit_char_val(n as int % 10);
        assert((n as int / 10) * 10 + (n as int % 10) == n as int);
        assert(spec_parse_u64(s) == Some(n as int));
    }
}

/// The character of a digit is a digit and spells the digit.
proof fn lemma_digit_char_val(d: int)
    requires
        0 <= d <= 9,
    ensures
        crate::date::spec_is_digit(crate::text::spec_digit_char(d)),
        crate::date::spec_digit_val(crate::text::spec_digit_char(d)) == d,
{
}

/// Round trip of the storage layout: the timestamp that named an upload
/// can always be read back from the generated filename. Together with
/// `lemma_file_path_injective` this is what lets a reconciliation sweep
/// derive a record from a stored path.
pub proof fn lemma_filename_timestamp_roundtrip(test_hint: bool, ts: u64)
    ensures
        spec_filename_timestamp(spec_filename(test_hint, ts as int)) == Some(ts as int),
{
    reveal_strlit("test_");
    reveal_strlit("recording_");
    reveal_strlit(".webm");
    let prefix: Seq<char> = if test_hint {
        "test_"@
    } else {
        Seq::<char>::empty()
    };
    let head = prefix + "recording_"@;
    let digits = spec_decimal(ts as int);
    let tail = digits + ".webm"@;
    let name = spec_filename(test_hint, ts as int);
    assert(name =~= head + tail);

    assert forall|i: int| 0 <= i < tail.len() implies tail[i] != '_' by {
        if i < digits.len() {
            lemma_decimal_digits(ts as int, i);
        } else {
            assert(tail[i] == ".webm"@[i - digits.len()]);
        }
    }
    lemma_last_underscore_append(head, tail);
    assert(head.last() == '_');
    assert(spec_last_underscore(head) == head.len() - 1);
    assert(spec_last_underscore(name) == head.len() - 1);

    assert forall|i: int| 0 <= i < head.len() implies head[i] != '.' by {
        if i < prefix.len() {
            assert(head[i] == "test_"@[i]);
        } else {
            assert(head[i] == "recording_"@[i - prefix.len()]);
        }
    }
    assert forall|i: int| 0 <= i < digits.len() implies digits[i] != '.' by {
        lemma_decimal_digits(ts as int, i);
    }
    lemma_first_dot_append(head, tail);
    lemma_first_dot_append(digits, ".webm"@);
    assert(".webm"@[0] == '.');
    assert(spec_first_dot(".webm"@) == 0);
    assert(spec_first_dot(tail) == digits.len());
    assert(spec_first_dot(name) == head.len() + digits.len());

    crate::text::lemma_decimal_nonempty(ts as int);
    assert(name.subrange(head.len() as int, head.len() + digits.len() as int) =~= digits);
    lemma_parse_decimal(ts);
}

/// No character of a decimal spelling is a slash.
proof fn lemma_no_slash_in_decimal(n: int, i: int)
    requires
        n >= 0,
        0 <= i < spec_decimal(n).len(),
    ensures
        spec_decimal(n)[i] != '/',
{
    lemma_decimal_digits(n, i);
}

/// Unique decomposition at the first slash: when two strings of the form
/// `<decimal>/<rest>` are equal, the numbers and the rests are equal.
proof fn lemma_decimal_slash_split(a: int, b: int, rest_a: Seq<char>, rest_b: Seq<char>)
    requires
        a >= 0,
        b >= 0,
        spec_decimal(a) + seq!['/'] + rest_a == spec_decimal(b) + seq!['/'] + rest_b,
    ensures
        a == b,
        rest_a == rest_b,
{
    let la = spec_decimal(a).len() as int;
    let lb = spec_decimal(b).len() as int;
    let s = spec_decimal(a) + seq!['/'] + rest_a;
    if la < lb {
        assert(s[la] == '/');
        assert(s[la] == spec_decimal(b)[la]);
        lemma_no_slash_in_decimal(b, la);
    } else if lb < la {
        assert(s[lb] == '/');
        assert(s[lb] == spec_decimal(a)[lb]);
        lemma_no_slash_in_decimal(a, lb);
    } else {
        assert(spec_decimal(a) =~= spec_decimal(b)) by {
            assert(forall|i: int| 0 <= i < la ==> s[i] == spec_decimal(a)[i]);
            assert(forall|i: int|
                0 <= i < la ==> (spec_decimal(b) + seq!['/'] + rest_b)[i] == spec_decimal(b)[i]);
        }
        if a != b {
            lemma_decimal_injective(a, b);
        }
        assert(rest_a =~= rest_b) by {
            assert(s.len() == la + 1 + rest_a.len());
            assert((spec_decimal(b) + seq!['/'] + rest_b).len() == lb + 1 + rest_b.len());
            assert(rest_a.len() == rest_b.len());
            assert(forall|i: int| 0 <= i < rest_a.len() ==> #[trigger] rest_a[i] == s[la + 1 + i]);
            assert(forall|i: int|
                0 <= i < rest_b.len() ==> #[trigger] rest_b[i] == (spec_decimal(b) + seq!['/']
                    + rest_b)[lb + 1 + i]);
        }
    }
}

/// A storage-relative path decodes to exactly one date and filename: equal
/// paths come from the same date and the same filename. This is what makes
/// a reconciliation sweep from paths back to records possible.
pub proof fn lemma_file_path_injective(a: Date, fa: Seq<char>, b: Date, fb: Seq<char>)
    requires
        spec_file_path(a, fa) == spec_file_path(b, fb),
    ensures
        a.year == b.year,
        a.month == b.month,
        a.day == b.day,
        fa == fb,
{
    let ra = spec_decimal(a.month as int) + seq!['/'] + (spec_decimal(a.day as int) + seq!['/']
        + fa);
    let rb = spec_decimal(b.month as int) + seq!['/'] + (spec_decimal(b.day as int) + seq!['/']
        + fb);
    assert(spec_file_path(a, fa) =~= spec_decimal(a.year as int) + seq!['/'] + ra);
    assert(spec_file_path(b, fb) =~= spec_decimal(b.year as int) + seq!['/'] + rb);
    lemma_decimal_slash_split(a.year as int, b.year as int, ra, rb);
    lemma_decimal_slash_split(
        a.month as int,
        b.month as int,
        spec_decimal(a.day as int) + seq!['/'] + fa,
        spec_decimal(b.day as int) + seq!['/'] + fb,
    );
    lemma_decimal_slash_split(a.day as int, b.day as int, fa, fb);
}

} // verus!
