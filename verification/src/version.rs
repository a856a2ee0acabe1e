//! Debian version strings: parsing into `(epoch, upstream, revision)` and
//! the Debian ordering over them.

use vstd::prelude::*;

verus! {

use core::cmp::Ordering;
use vstd::string::StringSliceAdditionalSpecFns;
use vstd::slice::slice_subrange;
use vstd::slice::slice_to_vec;

/// An ASCII decimal digit.
pub open spec fn spec_is_digit(c: u8) -> bool {
    0x30 <= c && c <= 0x39
}

/// An ASCII letter.
pub open spec fn spec_is_alpha(c: u8) -> bool {
    (0x41 <= c && c <= 0x5a) || (0x61 <= c && c <= 0x7a)
}

/// Ordering key for a byte in a version string: `~` sorts before everything
/// (including end of string, which compares as 0), letters by byte value,
/// digits are handled by the numeric rules, and any other byte sorts after
/// all letters.
pub open spec fn spec_version_sort_priority(c: u8) -> int {
    if spec_is_digit(c) {
        0
    } else if spec_is_alpha(c) {
        c as int
    } else if c == 0x7e {
        -1
    } else {
        c as int + 0x100
    }
}

pub fn get_version_sort_priority(c: u8) -> (r: i16)
    ensures
        r as int == spec_version_sort_priority(c),
{
    if 0x30 <= c && c <= 0x39 {
        return 0;
    }
    if (0x41 <= c && c <= 0x5a) || (0x61 <= c && c <= 0x7a) {
        return c as i16;
    }
    if c == 0x7e {
        return -1;
    }
    (c as i16) + 0x100
}

/// The ordering of two integers.
pub open spec fn spec_ord_int(a: int, b: int) -> Ordering {
    if a < b {
        Ordering::Less
    } else if a == b {
        Ordering::Equal
    } else {
        Ordering::Greater
    }
}

/// A version fragment with its leading `0` bytes removed.
pub open spec fn spec_strip_zeros(s: Seq<u8>) -> Seq<u8>
    decreases s.len(),
{
    if s.len() > 0 && s[0] == 0x30 {
        spec_strip_zeros(s.skip(1))
    } else {
        s
    }
}

/// Length of the run of digits at the head of a fragment.
pub open spec fn spec_digit_run(s: Seq<u8>) -> nat
    decreases s.len(),
{
    if s.len() > 0 && spec_is_digit(s[0]) {
        1 + spec_digit_run(s.skip(1))
    } else {
        0
    }
}

/// Byte-wise comparison of two fragments of equal length: the first
/// differing position decides.
pub open spec fn spec_lex_cmp(a: Seq<u8>, b: Seq<u8>) -> Ordering
    decreases a.len(),
{
    if a.len() == 0 || b.len() == 0 {
        Ordering::Equal
    } else if a[0] != b[0] {
        spec_ord_int(a[0] as int, b[0] as int)
    } else {
        spec_lex_cmp(a.skip(1), b.skip(1))
    }
}

proof fn lemma_strip_zeros_len(s: Seq<u8>)
    ensures
        spec_strip_zeros(s).len() <= s.len(),
        s.len() > 0 && s[0] == 0x30 ==> spec_strip_zeros(s).len() < s.len(),
        spec_strip_zeros(s).len() > 0 ==> spec_strip_zeros(s)[0] != 0x30,
    decreases s.len(),
{
    if s.len() > 0 && s[0] == 0x30 {
        lemma_strip_zeros_len(s.skip(1));
    }
}

proof fn lemma_digit_run_le_len(s: Seq<u8>)
    ensures
        spec_digit_run(s) <= s.len(),
    decreases s.len(),
{
    if s.len() > 0 && spec_is_digit(s[0]) {
        lemma_digit_run_le_len(s.skip(1));
    }
}

/// The Debian algorithm for comparing two version fragments (upstream
/// version or revision), stated over byte sequences.  Alternating non-digit
/// and digit runs are compared: non-digit runs byte by byte through
/// `spec_version_sort_priority` with end of string counting as 0, digit runs
/// numerically (leading zeros stripped, longer run of significant digits
/// wins, first differing digit breaks ties).
pub open spec fn spec_version_cmp(a: Seq<u8>, b: Seq<u8>) -> Ordering
    decreases a.len() + b.len(),
        via spec_version_cmp_decreases
{
    if (a.len() > 0 && !spec_is_digit(a[0])) || (b.len() > 0 && !spec_is_digit(b[0])) {
        let ac = if a.len() > 0 {
            spec_version_sort_priority(a[0])
        } else {
            0
        };
        let bc = if b.len() > 0 {
            spec_version_sort_priority(b[0])
        } else {
            0
        };
        if ac != bc {
            spec_ord_int(ac, bc)
        } else {
            spec_version_cmp(a.skip(1), b.skip(1))
        }
    } else if a.len() == 0 && b.len() == 0 {
        Ordering::Equal
    } else {
        let sa = spec_strip_zeros(a);
        let sb = spec_strip_zeros(b);
        let ra = spec_digit_run(sa);
        let rb = spec_digit_run(sb);
        if ra > rb {
            Ordering::Greater
        } else if ra < rb {
            Ordering::Less
        } else if spec_lex_cmp(sa.take(ra as int), sb.take(rb as int)) != Ordering::Equal {
            spec_lex_cmp(sa.take(ra as int), sb.take(rb as int))
        } else {
            spec_version_cmp(sa.skip(ra as int), sb.skip(ra as int))
        }
    }
}

#[via_fn]
proof fn spec_version_cmp_decreases(a: Seq<u8>, b: Seq<u8>) {
    if (a.len() > 0 && !spec_is_digit(a[0])) || (b.len() > 0 && !spec_is_digit(b[0])) {
        let ac = if a.len() > 0 {
            spec_version_sort_priority(a[0])
        } else {
            0
        };
        let bc = if b.len() > 0 {
            spec_version_sort_priority(b[0])
        } else {
            0
        };
        if ac == bc {
            // Equal keys mean neither side has run out: an exhausted side
            // has key 0, which only digits have, and a digit head on the
            // other side would have ended the non-digit run.
            assert(a.len() > 0 && b.len() > 0);
        }
    } else if !(a.len() == 0 && b.len() == 0) {
        let sa = spec_strip_zeros(a);
        let sb = spec_strip_zeros(b);
        let ra = spec_digit_run(sa);
        let rb = spec_digit_run(sb);
        lemma_strip_zeros_len(a);
        lemma_strip_zeros_len(b);
        lemma_digit_run_le_len(sa);
        lemma_digit_run_le_len(sb);
        if ra == rb && ra == 0 {
            if a.len() > 0 && a[0] != 0x30 {
                assert(spec_strip_zeros(a) == a);
                assert(spec_digit_run(sa) > 0);
            }
            if b.len() > 0 && b[0] != 0x30 {
                assert(spec_strip_zeros(b) == b);
                assert(spec_digit_run(sb) > 0);
            }
            assert((a.len() > 0 && a[0] == 0x30) || (b.len() > 0 && b[0] == 0x30));
        }
    }
}

/// The comparison never moves past the length of either fragment, so equal
/// fragments always compare equal.
pub proof fn lemma_version_cmp_reflexive(s: Seq<u8>)
    ensures
        spec_version_cmp(s, s) == Ordering::Equal,
    decreases s.len(),
{
    if s.len() > 0 && !spec_is_digit(s[0]) {
        lemma_version_cmp_reflexive(s.skip(1));
    } else if s.len() > 0 {
        let ss = spec_strip_zeros(s);
        let r = spec_digit_run(ss);
        lemma_strip_zeros_len(s);
        lemma_digit_run_le_len(ss);
        lemma_lex_cmp_reflexive(ss.take(r as int));
        if s[0] == 0x30 {
            lemma_version_cmp_reflexive(ss.skip(r as int));
        } else {
            assert(spec_strip_zeros(s) == s);
            assert(r > 0);
            lemma_version_cmp_reflexive(ss.skip(r as int));
        }
    }
}

proof fn lemma_lex_cmp_reflexive(s: Seq<u8>)
    ensures
        spec_lex_cmp(s, s) == Ordering::Equal,
    decreases s.len(),
{
    if s.len() > 0 {
        lemma_lex_cmp_reflexive(s.skip(1));
    }
}

/// One step of `spec_lex_cmp` added at the tail: with equally long
/// fragments, appending one byte to each side decides only if everything
/// before was equal.
proof fn lemma_lex_cmp_snoc(x: Seq<u8>, y: Seq<u8>, c: u8, d: u8)
    requires
        x.len() == y.len(),
    ensures
        spec_lex_cmp(x.push(c), y.push(d)) == if spec_lex_cmp(x, y) == Ordering::Equal {
            spec_ord_int(c as int, d as int)
        } else {
            spec_lex_cmp(x, y)
        },
    decreases x.len(),
{
    if x.len() == 0 {
        let e = Seq::<u8>::empty();
        assert(spec_lex_cmp(e, e) == Ordering::Equal);
        assert(x.push(c).len() == 1);
        assert(x.push(c)[0] == c);
        assert(y.push(d)[0] == d);
        assert(x.push(c).skip(1) =~= e);
        assert(y.push(d).skip(1) =~= e);
        if c == d {
            assert(spec_lex_cmp(x.push(c), y.push(d)) == Ordering::Equal);
        }
    } else {
        assert(x.push(c)[0] == x[0]);
        assert(y.push(d)[0] == y[0]);
        assert(x.push(c).skip(1) =~= x.skip(1).push(c));
        assert(y.push(d).skip(1) =~= y.skip(1).push(d));
        lemma_lex_cmp_snoc(x.skip(1), y.skip(1), c, d);
    }
}

/// A digit at the head lengthens the digit run by one.
proof fn lemma_digit_run_step(s: Seq<u8>)
    requires
        s.len() > 0,
        spec_is_digit(s[0]),
    ensures
        spec_digit_run(s) == 1 + spec_digit_run(s.skip(1)),
{
}

/// Compare two version fragments by the Debian algorithm.
pub fn version_string_cmp(a: &[u8], b: &[u8]) -> (r: Ordering)
    ensures
        r == spec_version_cmp(a@, b@),
{
    let mut i: usize = 0;
    let mut j: usize = 0;
    proof {
        assert(a@.skip(0) =~= a@);
        assert(b@.skip(0) =~= b@);
    }
    loop
        invariant
            i <= a@.len(),
            j <= b@.len(),
            spec_version_cmp(a@.skip(i as int), b@.skip(j as int)) == spec_version_cmp(a@, b@),
        decreases (a@.len() - i) + (b@.len() - j),
    {
        let ghost i_top = i as int;
        let ghost j_top = j as int;
        // Non-digit run: compare byte keys in lockstep, end of string as 0.
        while (i < a.len() && !(0x30 <= a[i] && a[i] <= 0x39)) || (j < b.len() && !(0x30 <= b[j]
            && b[j] <= 0x39))
            invariant
                i <= a@.len(),
                j <= b@.len(),
                0 <= i_top <= i,
                0 <= j_top <= j,
                i - i_top == j - j_top,
                spec_version_cmp(a@.skip(i as int), b@.skip(j as int)) == spec_version_cmp(
                    a@,
                    b@,
                ),
            decreases (a@.len() - i) + (b@.len() - j),
        {
            let ac = if i < a.len() {
                get_version_sort_priority(a[i])
            } else {
                0
            };
            let bc = if j < b.len() {
                get_version_sort_priority(b[j])
            } else {
                0
            };
            if ac != bc {
                return if ac < bc {
                    Ordering::Less
                } else {
                    Ordering::Greater
                };
            }
            proof {
                assert(a@.skip(i as int).skip(1) =~= a@.skip(i as int + 1));
                assert(b@.skip(j as int).skip(1) =~= b@.skip(j as int + 1));
            }
            i = i + 1;
            j = j + 1;
        }
        // Both sides now stand at a digit or at their end.
        if i >= a.len() && j >= b.len() {
            proof {
                assert(a@.skip(i as int) =~= Seq::<u8>::empty());
                assert(b@.skip(j as int) =~= Seq::<u8>::empty());
            }
            return Ordering::Equal;
        }
        let ghost i1 = i as int;
        let ghost j1 = j as int;
        // Strip leading zeros on both sides.
        while i < a.len() && a[i] == 0x30
            invariant
                0 <= i1 <= i <= a@.len(),
                spec_strip_zeros(a@.skip(i1)) == spec_strip_zeros(a@.skip(i as int)),
            decreases a@.len() - i,
        {
            proof {
                assert(a@.skip(i as int).skip(1) =~= a@.skip(i as int + 1));
            }
            i = i + 1;
        }
        while j < b.len() && b[j] == 0x30
            invariant
                0 <= j1 <= j <= b@.len(),
                spec_strip_zeros(b@.skip(j1)) == spec_strip_zeros(b@.skip(j as int)),
            decreases b@.len() - j,
        {
            proof {
                assert(b@.skip(j as int).skip(1) =~= b@.skip(j as int + 1));
            }
            j = j + 1;
        }
        let ghost sa = spec_strip_zeros(a@.skip(i1));
        let ghost sb = spec_strip_zeros(b@.skip(j1));
        let ghost i2 = i as int;
        let ghost j2 = j as int;
        proof {
            assert(sa == a@.skip(i2));
            assert(sb == b@.skip(j2));
        }
        // Compare the digit runs in lockstep, remembering the first
        // difference.
        let mut first_diff: Ordering = Ordering::Equal;
        while i < a.len() && (0x30 <= a[i] && a[i] <= 0x39) && j < b.len() && (0x30 <= b[j] && b[j]
            <= 0x39)
            invariant
                0 <= i2 <= i <= a@.len(),
                0 <= j2 <= j <= b@.len(),
                i - i2 == j - j2,
                sa == a@.skip(i2),
                sb == b@.skip(j2),
                spec_digit_run(sa) == (i - i2) + spec_digit_run(a@.skip(i as int)),
                spec_digit_run(sb) == (j - j2) + spec_digit_run(b@.skip(j as int)),
                first_diff == spec_lex_cmp(sa.take(i - i2), sb.take(j - j2)),
            decreases a@.len() - i,
        {
            let fd_now = matches!(first_diff, Ordering::Equal);
            proof {
                assert(a@.skip(i as int)[0] == a@[i as int]);
                assert(b@.skip(j as int)[0] == b@[j as int]);
                lemma_digit_run_step(a@.skip(i as int));
                lemma_digit_run_step(b@.skip(j as int));
                assert(a@.skip(i as int).skip(1) =~= a@.skip(i as int + 1));
                assert(b@.skip(j as int).skip(1) =~= b@.skip(j as int + 1));
                assert(sa.take(i - i2 + 1) =~= sa.take(i - i2).push(a@[i as int]));
                assert(sb.take(j - j2 + 1) =~= sb.take(j - j2).push(b@[j as int]));
                lemma_lex_cmp_snoc(sa.take(i - i2), sb.take(j - j2), a@[i as int], b@[j as int]);
            }
            if fd_now {
                first_diff = if a[i] < b[j] {
                    Ordering::Less
                } else if a[i] == b[j] {
                    Ordering::Equal
                } else {
                    Ordering::Greater
                };
            }
            i = i + 1;
            j = j + 1;
        }
        let ghost k = i - i2;
        // A longer run of significant digits is the larger number.
        if i < a.len() && (0x30 <= a[i] && a[i] <= 0x39) {
            proof {
                lemma_digit_run_step(a@.skip(i as int));
                assert(spec_digit_run(sa) > spec_digit_run(sb));
            }
            return Ordering::Greater;
        }
        if j < b.len() && (0x30 <= b[j] && b[j] <= 0x39) {
            proof {
                lemma_digit_run_step(b@.skip(j as int));
                assert(spec_digit_run(sb) > spec_digit_run(sa));
            }
            return Ordering::Less;
        }
        proof {
            assert(spec_digit_run(a@.skip(i as int)) == 0);
            assert(spec_digit_run(b@.skip(j as int)) == 0);
            assert(spec_digit_run(sa) == k);
            assert(spec_digit_run(sb) == k);
        }
        if !matches!(first_diff, Ordering::Equal) {
            return first_diff;
        }
        proof {
            assert(sa.skip(k) =~= a@.skip(i as int));
            assert(sb.skip(k) =~= b@.skip(j as int));
            assert(spec_version_cmp(a@.skip(i1), b@.skip(j1)) == spec_version_cmp(
                a@.skip(i as int),
                b@.skip(j as int),
            ));
            // Progress: an iteration that falls through moved at least one
            // cursor, else one side would have ended the comparison above.
            if i as int == i_top && j as int == j_top {
                assert(i1 == i2 && i2 == i as int);
                assert(sa == a@.skip(i as int));
                if (i as int) < a@.len() {
                    assert(spec_is_digit(a@.skip(i as int)[0]));
                    lemma_digit_run_step(a@.skip(i as int));
                    assert(false);
                }
                if (j as int) < b@.len() {
                    assert(spec_is_digit(b@.skip(j as int)[0]));
                    lemma_digit_run_step(b@.skip(j as int));
                    assert(false);
                }
                assert(false);
            }
        }
    }
}

/// One past the index of the first `:` in the string, or 0 if it has none.
pub open spec fn spec_first_colon_end(s: Seq<u8>) -> int
    decreases s.len(),
{
    if s.len() == 0 {
        0
    } else {
        let p = spec_first_colon_end(s.drop_last());
        if p > 0 {
            p
        } else if s.last() == 0x3a {
            s.len() as int
        } else {
            0
        }
    }
}

/// The index of the last `-` in the string, or its length if it has none.
pub open spec fn spec_last_dash(s: Seq<u8>) -> int
    decreases s.len(),
{
    if s.len() == 0 {
        0
    } else if s.last() == 0x2d {
        s.len() - 1
    } else {
        let p = spec_last_dash(s.drop_last());
        if p == s.len() - 1 {
            s.len() as int
        } else {
            p
        }
    }
}

pub open spec fn spec_all_digits(s: Seq<u8>) -> bool {
    forall|k: int| 0 <= k < s.len() ==> spec_is_digit(#[trigger] s[k])
}

/// The value of a string of decimal digits.
pub open spec fn spec_dec_value(s: Seq<u8>) -> nat
    decreases s.len(),
{
    if s.len() == 0 {
        0
    } else {
        spec_dec_value(s.drop_last()) * 10 + (s.last() - 0x30) as nat
    }
}

/// The digits before the first `:`, taken as the epoch; 0 when there is no
/// `:`.
pub open spec fn spec_epoch_of(s: Seq<u8>) -> nat {
    if spec_first_colon_end(s) == 0 {
        0
    } else {
        spec_dec_value(s.take(spec_first_colon_end(s) - 1))
    }
}

/// A version string splits into its three parts exactly when the epoch
/// prefix, if any, is one or more digits whose value fits in 32 bits, and
/// the last `-` does not come before the first `:`.
pub open spec fn spec_deb_parse_ok(s: Seq<u8>) -> bool {
    let fc = spec_first_colon_end(s);
    &&& (fc == 0 || (fc >= 2 && spec_all_digits(s.take(fc - 1)) && spec_dec_value(
        s.take(fc - 1),
    ) <= u32::MAX))
    &&& spec_last_dash(s) >= fc
}

/// The upstream part: everything between the first `:` and the last `-`.
pub open spec fn spec_upstream_of(s: Seq<u8>) -> Seq<u8> {
    s.subrange(spec_first_colon_end(s), spec_last_dash(s))
}

/// The revision part: everything after the last `-`, empty if there is
/// none.
pub open spec fn spec_release_of(s: Seq<u8>) -> Seq<u8> {
    if spec_last_dash(s) == s.len() {
        Seq::empty()
    } else {
        s.subrange(spec_last_dash(s) + 1, s.len() as int)
    }
}

proof fn lemma_dec_value_prefix_le(s: Seq<u8>, k: int)
    requires
        0 <= k <= s.len(),
    ensures
        spec_dec_value(s.take(k)) <= spec_dec_value(s),
    decreases s.len(),
{
    if k < s.len() {
        assert(s.drop_last().take(k) =~= s.take(k));
        lemma_dec_value_prefix_le(s.drop_last(), k);
    } else {
        assert(s.take(k) =~= s);
    }
}

/// A Debian version, split into its `(epoch, upstream, revision)` parts.
#[derive(Debug)]
pub struct DebVersion {
    pub epoch: u32,
    pub version: Vec<u8>,
    pub release: Vec<u8>,
}

/// The ordering of two parsed versions: epoch first, then the upstream
/// part, then the revision, each by the Debian fragment comparison.
pub open spec fn spec_deb_cmp(a: &DebVersion, b: &DebVersion) -> Ordering {
    if a.epoch != b.epoch {
        spec_ord_int(a.epoch as int, b.epoch as int)
    } else if spec_version_cmp(a.version@, b.version@) != Ordering::Equal {
        spec_version_cmp(a.version@, b.version@)
    } else {
        spec_version_cmp(a.release@, b.release@)
    }
}

/// The ordering of two version strings given as bytes: epoch first, then
/// the upstream part, then the revision.
pub open spec fn spec_deb_string_cmp(a: Seq<u8>, b: Seq<u8>) -> Ordering {
    if spec_epoch_of(a) != spec_epoch_of(b) {
        spec_ord_int(spec_epoch_of(a) as int, spec_epoch_of(b) as int)
    } else if spec_version_cmp(spec_upstream_of(a), spec_upstream_of(b)) != Ordering::Equal {
        spec_version_cmp(spec_upstream_of(a), spec_upstream_of(b))
    } else {
        spec_version_cmp(spec_release_of(a), spec_release_of(b))
    }
}

impl DebVersion {
    /// Split a version string into epoch, upstream part and revision.
    pub fn parse(input: &str) -> (r: Option<DebVersion>)
        ensures
            match r {
                Some(v) => {
                    &&& spec_deb_parse_ok(input.spec_bytes())
                    &&& v.epoch as nat == spec_epoch_of(input.spec_bytes())
                    &&& v.version@ == spec_upstream_of(input.spec_bytes())
                    &&& v.release@ == spec_release_of(input.spec_bytes())
                },
                None => !spec_deb_parse_ok(input.spec_bytes()),
            },
    {
        DebVersion::parse_bytes(input.as_bytes())
    }

    /// Split a version string, given as bytes, into epoch, upstream part
    /// and revision.
    pub fn parse_bytes(bytes: &[u8]) -> (r: Option<DebVersion>)
        ensures
            match r {
                Some(v) => {
                    &&& spec_deb_parse_ok(bytes@)
                    &&& v.epoch as nat == spec_epoch_of(bytes@)
                    &&& v.version@ == spec_upstream_of(bytes@)
                    &&& v.release@ == spec_release_of(bytes@)
                },
                None => !spec_deb_parse_ok(bytes@),
            },
    {
        let n = bytes.len();
        let mut first_colon: usize = 0;
        let mut last_dash: usize = 0;
        let mut has_dash: bool = false;
        let mut i: usize = 0;
        proof {
            assert(bytes@.take(0) =~= Seq::<u8>::empty());
        }
        while i < n
            invariant
                n == bytes@.len(),
                i <= n,
                first_colon <= i,
                first_colon as int == spec_first_colon_end(bytes@.take(i as int)),
                if has_dash {
                    last_dash < i && spec_last_dash(bytes@.take(i as int)) == last_dash as int
                } else {
                    spec_last_dash(bytes@.take(i as int)) == i as int
                },
            decreases n - i,
        {
            proof {
                assert(bytes@.take(i as int + 1).drop_last() =~= bytes@.take(i as int));
                assert(bytes@.take(i as int + 1).last() == bytes@[i as int]);
            }
            let c = bytes[i];
            if c == 0x3a {
                if first_colon < 1 {
                    first_colon = i + 1;
                }
            } else if c == 0x2d {
                last_dash = i;
                has_dash = true;
            }
            i = i + 1;
        }
        proof {
            assert(bytes@.take(n as int) =~= bytes@);
        }
        if !has_dash {
            last_dash = n;
        }
        let ghost s = bytes@;
        let mut epoch: u32 = 0;
        if first_colon > 0 {
            if first_colon == 1 {
                return None;
            }
            let m = first_colon - 1;
            let mut k: usize = 0;
            while k < m
                invariant
                    s == bytes@,
                    n == bytes@.len(),
                    m < n,
                    k <= m,
                    m as int == spec_first_colon_end(s) - 1,
                    spec_first_colon_end(s) >= 2,
                    spec_all_digits(bytes@.take(k as int)),
                    epoch as nat == spec_dec_value(bytes@.take(k as int)),
                decreases m - k,
            {
                proof {
                    assert(bytes@.take(k as int + 1).drop_last() =~= bytes@.take(k as int));
                    assert(bytes@.take(k as int + 1).last() == bytes@[k as int]);
                }
                let c = bytes[k];
                if !(0x30 <= c && c <= 0x39) {
                    proof {
                        assert(s.take(m as int)[k as int] == s[k as int]);
                        assert(!spec_all_digits(s.take(m as int)));
                    }
                    return None;
                }
                let d = (c - 0x30) as u64;
                let next = (epoch as u64) * 10 + d;
                if next > 0xffff_ffffu64 {
                    proof {
                        lemma_dec_value_prefix_le(s.take(m as int), k as int + 1);
                        assert(s.take(m as int).take(k as int + 1) =~= s.take(k as int + 1));
                        assert(spec_dec_value(s.take(m as int)) > u32::MAX);
                    }
                    return None;
                }
                epoch = next as u32;
                k = k + 1;
            }
        }
        if last_dash < first_colon {
            return None;
        }
        let version = slice_to_vec(slice_subrange(bytes, first_colon, last_dash));
        let release = if last_dash == n {
            Vec::new()
        } else {
            slice_to_vec(slice_subrange(bytes, last_dash + 1, n))
        };
        proof {
            if spec_last_dash(s) == s.len() {
                assert(spec_release_of(s) =~= Seq::<u8>::empty());
            }
        }
        Some(DebVersion { epoch, version, release })
    }
}

/// Compare two parsed versions: epoch, then upstream part, then revision.
pub fn deb_cmp(a: &DebVersion, b: &DebVersion) -> (r: Ordering)
    ensures
        r == spec_deb_cmp(a, b),
{
    let e = if a.epoch < b.epoch {
        Ordering::Less
    } else if a.epoch == b.epoch {
        Ordering::Equal
    } else {
        Ordering::Greater
    };
    if !matches!(e, Ordering::Equal) {
        return e;
    }
    let v = version_string_cmp(a.version.as_slice(), b.version.as_slice());
    if !matches!(v, Ordering::Equal) {
        return v;
    }
    version_string_cmp(a.release.as_slice(), b.release.as_slice())
}

impl PartialEq for DebVersion {
    fn eq(&self, other: &Self) -> (r: bool) {
        matches!(self.partial_cmp(other), Some(Ordering::Equal))
    }
}

impl vstd::std_specs::cmp::PartialEqSpecImpl for DebVersion {
    open spec fn obeys_eq_spec() -> bool {
        true
    }

    open spec fn eq_spec(&self, other: &Self) -> bool {
        spec_deb_cmp(self, other) == Ordering::Equal
    }
}

impl PartialOrd for DebVersion {
    fn partial_cmp(&self, other: &Self) -> (r: Option<Ordering>) {
        Some(deb_cmp(self, other))
    }
}

impl vstd::std_specs::cmp::PartialOrdSpecImpl for DebVersion {
    open spec fn obeys_partial_cmp_spec() -> bool {
        true
    }

    open spec fn partial_cmp_spec(&self, other: &Self) -> Option<Ordering> {
        Some(spec_deb_cmp(self, other))
    }
}

/// Equal parts compare equal: comparing any parsed version with itself
/// yields `Equal`.
pub proof fn lemma_deb_cmp_reflexive(v: &DebVersion)
    ensures
        spec_deb_cmp(v, v) == Ordering::Equal,
{
    lemma_version_cmp_reflexive(v.version@);
    lemma_version_cmp_reflexive(v.release@);
}

} // verus!
