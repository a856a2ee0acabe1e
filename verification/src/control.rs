//! Patching control paragraphs: the in-memory record is a
//! `deb822_lossless::Paragraph`, modeled as an ordered list of
//! `(name, value)` fields, and every field edit of a plan goes through
//! `apply_field_patch`.

use vstd::prelude::*;

verus! {

use crate::errors::AprilError;
use crate::plan::AprilAction;
use crate::plan::AprilActionType;
use crate::plan::SpecAction;
use crate::strutil::str_eq_chars;
use vstd::string::StrSliceExecFns;
use vstd::string::StringExecFns;

/// The paragraph type of the outside deb822 parser, used opaquely.
#[verifier::external_type_specification]
#[verifier::external_body]
pub struct ExParagraph(deb822_lossless::Paragraph);

/// What a paragraph holds: its fields as `(name, value)` pairs in
/// document order.
pub uninterp spec fn para_fields(p: deb822_lossless::Paragraph) -> Seq<(Seq<char>, Seq<char>)>;

/// A character of the Unicode white-space class, as
/// `char::is_whitespace` recognizes it.
pub open spec fn spec_unicode_ws(c: char) -> bool {
    c == ' ' || c == '\t' || c == '\n' || c == '\r' || c == '\u{b}' || c == '\u{c}' || c
        == '\u{85}' || c == '\u{a0}' || c == '\u{1680}' || ('\u{2000}' <= c && c <= '\u{200a}')
        || c == '\u{2028}' || c == '\u{2029}' || c == '\u{202f}' || c == '\u{205f}' || c
        == '\u{3000}'
}

/// Whether deb822 storage accepts a field value: it refuses values with a
/// whitespace-only continuation line, that is a line after the first that
/// trims to nothing.
pub open spec fn deb822_storable(v: Seq<char>) -> bool {
    forall|i: int, j: int|
        #![trigger v[i], v[j]]
        (0 <= i < j <= v.len() && v[i] == '\n' && (j == v.len() || v[j] == '\n') && (forall|
            k: int,
        | i < k < j ==> spec_unicode_ws(#[trigger] v[k]))) ==> false
}

/// A value without newlines has no continuation line at all, so deb822
/// storage always accepts it.
pub proof fn lemma_newline_free_storable(v: Seq<char>)
    requires
        forall|i: int| 0 <= i < v.len() ==> (#[trigger] v[i]) != '\n',
    ensures
        deb822_storable(v),
{
}

/// The ASCII-lowered code of a character, for case-insensitive field
/// names.
pub open spec fn spec_lower_code(c: char) -> int {
    if 'A' <= c && c <= 'Z' {
        c as int + 32
    } else {
        c as int
    }
}

/// ASCII-case-insensitive equality of two names.
pub open spec fn spec_eq_ignore_case(a: Seq<char>, b: Seq<char>) -> bool {
    a.len() == b.len() && forall|i: int|
        0 <= i < a.len() ==> spec_lower_code(a[i]) == spec_lower_code(b[i])
}

/// The index of the first field whose name matches case-insensitively, or
/// -1 if none does.
pub open spec fn spec_find_key(fields: Seq<(Seq<char>, Seq<char>)>, key: Seq<char>) -> int
    decreases fields.len(),
{
    if fields.len() == 0 {
        -1
    } else if spec_eq_ignore_case(fields[0].0, key) {
        0
    } else {
        let r = spec_find_key(fields.skip(1), key);
        if r < 0 {
            -1
        } else {
            r + 1
        }
    }
}

/// What setting a field does to the contents: the first case-insensitive
/// match is replaced in place keeping its stored name, else the field is
/// appended at the end.
pub open spec fn spec_set_field(
    fields: Seq<(Seq<char>, Seq<char>)>,
    key: Seq<char>,
    value: Seq<char>,
) -> Seq<(Seq<char>, Seq<char>)> {
    let idx = spec_find_key(fields, key);
    if idx >= 0 {
        fields.update(idx, (fields[idx].0, value))
    } else {
        fields.push((key, value))
    }
}

/// What removing a field does to the contents: every case-insensitive
/// match goes.
pub open spec fn spec_remove_field(
    fields: Seq<(Seq<char>, Seq<char>)>,
    key: Seq<char>,
) -> Seq<(Seq<char>, Seq<char>)> {
    fields.filter(|f: (Seq<char>, Seq<char>)| !spec_eq_ignore_case(f.0, key))
}

proof fn lemma_find_key_bounds(fields: Seq<(Seq<char>, Seq<char>)>, key: Seq<char>)
    ensures
        -1 <= spec_find_key(fields, key) < fields.len(),
        spec_find_key(fields, key) >= 0 ==> spec_eq_ignore_case(
            fields[spec_find_key(fields, key)].0,
            key,
        ),
    decreases fields.len(),
{
    if fields.len() > 0 && !spec_eq_ignore_case(fields[0].0, key) {
        lemma_find_key_bounds(fields.skip(1), key);
    }
}

/// Relies on `deb822_lossless::Paragraph::get`: returns the value of the
/// first field whose name equals the key up to ASCII case, if any.
#[verifier::external_body]
fn para_get(p: &deb822_lossless::Paragraph, key: &str) -> (r: Option<String>)
    ensures
        match r {
            Some(v) => spec_find_key(para_fields(*p), key@) >= 0 && v@ == para_fields(*p)[
                spec_find_key(para_fields(*p), key@)].1,
            None => spec_find_key(para_fields(*p), key@) < 0,
        },
{
    p.get(key)
}

/// Relies on `deb822_lossless::Paragraph::try_set`: replaces the value of
/// the first field whose name matches up to ASCII case, keeping its place
/// and stored name, or appends a new field at the end; a value with a
/// whitespace-only continuation line (see `deb822_storable`) is refused
/// and the paragraph is left unchanged.
#[verifier::external_body]
fn para_try_set(p: &mut deb822_lossless::Paragraph, key: &str, value: &str) -> (r: Result<
    (),
    (),
>)
    ensures
        r is Ok <==> deb822_storable(value@),
        match r {
            Ok(()) => para_fields(*final(p)) == spec_set_field(
                para_fields(*old(p)),
                key@,
                value@,
            ),
            Err(()) => para_fields(*final(p)) == para_fields(*old(p)),
        },
{
    match p.try_set(key, value) {
        Ok(()) => Ok(()),
        Err(_) => Err(()),
    }
}

/// Relies on `deb822_lossless::Paragraph::remove`: removes every field
/// whose name equals the key up to ASCII case.
#[verifier::external_body]
fn para_remove(p: &mut deb822_lossless::Paragraph, key: &str)
    ensures
        para_fields(*final(p)) == spec_remove_field(para_fields(*old(p)), key@),
{
    p.remove(key)
}

// ---------------------------------------------------------------------
// Comma-list surgery
// ---------------------------------------------------------------------
/// The whitespace that is stripped around comma-list entries.
pub open spec fn spec_is_space(c: char) -> bool {
    c == ' ' || c == '\t' || c == '\n' || c == '\r' || c == '\u{b}' || c == '\u{c}'
}

/// The index of the first occurrence of a character, or the length if it
/// does not occur.
pub open spec fn spec_find_char(s: Seq<char>, c: char) -> int
    decreases s.len(),
{
    if s.len() == 0 {
        0
    } else if s[0] == c {
        0
    } else {
        1 + spec_find_char(s.skip(1), c)
    }
}

pub proof fn lemma_find_char(s: Seq<char>, c: char)
    ensures
        0 <= spec_find_char(s, c) <= s.len(),
        spec_find_char(s, c) < s.len() ==> s[spec_find_char(s, c)] == c,
        forall|m: int| 0 <= m < spec_find_char(s, c) ==> s[m] != c,
    decreases s.len(),
{
    if s.len() > 0 && s[0] != c {
        lemma_find_char(s.skip(1), c);
        let r = spec_find_char(s, c);
        assert forall|m: int| 0 <= m < r implies s[m] != c by {
            if m > 0 {
                assert(s[m] == s.skip(1)[m - 1]);
            }
        }
        if r < s.len() {
            assert(s[r] == s.skip(1)[r - 1]);
        }
    }
}

/// Length of the leading run of whitespace.
pub open spec fn spec_space_run(s: Seq<char>) -> nat
    decreases s.len(),
{
    if s.len() > 0 && spec_is_space(s[0]) {
        1 + spec_space_run(s.skip(1))
    } else {
        0
    }
}

/// Length of the trailing run of whitespace.
pub open spec fn spec_space_run_rev(s: Seq<char>) -> nat
    decreases s.len(),
{
    if s.len() > 0 && spec_is_space(s.last()) {
        1 + spec_space_run_rev(s.drop_last())
    } else {
        0
    }
}

proof fn lemma_space_run_le(s: Seq<char>)
    ensures
        spec_space_run(s) <= s.len(),
    decreases s.len(),
{
    if s.len() > 0 && spec_is_space(s[0]) {
        lemma_space_run_le(s.skip(1));
    }
}

proof fn lemma_space_run_rev_le(s: Seq<char>)
    ensures
        spec_space_run_rev(s) <= s.len(),
    decreases s.len(),
{
    if s.len() > 0 && spec_is_space(s.last()) {
        lemma_space_run_rev_le(s.drop_last());
    }
}

/// The entry with surrounding whitespace stripped.
pub open spec fn spec_trim(s: Seq<char>) -> Seq<char> {
    let a = spec_space_run(s);
    if a == s.len() {
        Seq::empty()
    } else {
        s.subrange(a as int, s.len() - spec_space_run_rev(s))
    }
}

/// Whether an entry names the item to remove: it is the bare name, or the
/// name followed by a space and an opening parenthesis.
pub open spec fn spec_entry_matches(entry: Seq<char>, item: Seq<char>) -> bool {
    entry == item || (entry.len() >= item.len() + 2 && entry.take(item.len() as int) == item
        && entry[item.len() as int] == ' ' && entry[item.len() as int + 1] == '(')
}

/// The comma list with the matching entries removed: the list splits on
/// commas, each entry is trimmed, entries that name the item (bare or
/// with a version constraint) are dropped, and the rest are joined with
/// `", "`.  `first` says whether nothing has been emitted yet.
pub open spec fn spec_remove_list_core(s: Seq<char>, item: Seq<char>, first: bool) -> Seq<char>
    decreases s.len(),
        via spec_remove_list_core_decreases
{
    let i = spec_find_char(s, ',');
    let raw = if i == s.len() {
        s
    } else {
        s.take(i)
    };
    let piece = spec_trim(raw);
    let keep = !spec_entry_matches(piece, item);
    let emitted: Seq<char> = if keep {
        (if first {
            Seq::empty()
        } else {
            ", "@
        }) + piece
    } else {
        Seq::empty()
    };
    if i >= s.len() {
        emitted
    } else {
        emitted + spec_remove_list_core(s.skip(i + 1), item, first && !keep)
    }
}

#[via_fn]
proof fn spec_remove_list_core_decreases(s: Seq<char>, item: Seq<char>, first: bool) {
    lemma_find_char(s, ',');
}

/// The comma list with every entry naming the item removed.
pub open spec fn spec_remove_list(s: Seq<char>, item: Seq<char>) -> Seq<char> {
    spec_remove_list_core(s, item, true)
}

/// Whether the entry names the item, bare or with a parenthesized
/// constraint.
fn entry_matches(entry: &str, item: &str) -> (r: bool)
    ensures
        r == spec_entry_matches(entry@, item@),
{
    let el = entry.unicode_len();
    let il = item.unicode_len();
    if str_eq_chars(entry, item) {
        return true;
    }
    if el < il || el - il < 2 {
        return false;
    }
    let mut i: usize = 0;
    while i < il
        invariant
            il == item@.len(),
            el == entry@.len(),
            el >= il + 2,
            i <= il,
            forall|k: int| 0 <= k < i ==> entry@[k] == item@[k],
        decreases il - i,
    {
        if entry.get_char(i) != item.get_char(i) {
            proof {
                assert(entry@.take(il as int)[i as int] != item@[i as int]);
            }
            return false;
        }
        i = i + 1;
    }
    proof {
        assert(entry@.take(il as int) =~= item@);
    }
    entry.get_char(il) == ' ' && entry.get_char(il + 1) == '('
}

/// Whether the character is comma-list whitespace.
fn is_space_char(c: char) -> (r: bool)
    ensures
        r == spec_is_space(c),
{
    c == ' ' || c == '\t' || c == '\n' || c == '\r' || c == '\u{b}' || c == '\u{c}'
}

/// Remove an item from a comma-separated list: entries are trimmed, those
/// equal to the item or starting with the item and a parenthesized
/// constraint are dropped, and the rest are joined with `", "`.
pub fn remove_item_from_string_list(list: &str, item: &str) -> (r: String)
    ensures
        r@ == spec_remove_list(list@, item@),
{
    let n = list.unicode_len();
    let mut out = String::new();
    let mut pos: usize = 0;
    let mut first: bool = true;
    proof {
        assert(list@.skip(0) =~= list@);
        assert(Seq::<char>::empty() + spec_remove_list_core(list@, item@, true)
            =~= spec_remove_list_core(list@, item@, true));
    }
    loop
        invariant_except_break
            n == list@.len(),
            pos <= n,
            out@ + spec_remove_list_core(list@.skip(pos as int), item@, first)
                == spec_remove_list(list@, item@),
        ensures
            out@ == spec_remove_list(list@, item@),
        decreases n - pos,
    {
        let ghost rem = list@.skip(pos as int);
        let ghost first0 = first;
        let ghost out0 = out@;
        proof {
            lemma_find_char(rem, ',');
        }
        // Find the next comma.
        let mut cend: usize = pos;
        while cend < n && list.get_char(cend) != ','
            invariant
                n == list@.len(),
                pos <= cend <= n,
                forall|m: int| pos <= m < cend ==> list@[m] != ',',
            decreases n - cend,
        {
            cend = cend + 1;
        }
        proof {
            // The scan found exactly the first comma of the remainder.
            assert(forall|m: int|
                0 <= m < cend - pos ==> rem[m] == list@[pos + m] && rem[m] != ',');
            if cend < n {
                assert(rem[cend - pos] == ',');
                assert(spec_find_char(rem, ',') == cend - pos) by {
                    lemma_find_char(rem, ',');
                    if spec_find_char(rem, ',') < cend - pos {
                        assert(rem[spec_find_char(rem, ',')] != ',');
                    }
                }
            } else {
                assert(spec_find_char(rem, ',') == rem.len()) by {
                    lemma_find_char(rem, ',');
                    if spec_find_char(rem, ',') < rem.len() {
                        assert(rem[spec_find_char(rem, ',')] != ',');
                    }
                }
            }
        }
        let ghost raw = if cend < n {
            rem.take(cend - pos)
        } else {
            rem
        };
        proof {
            assert(raw =~= list@.subrange(pos as int, cend as int));
        }
        // Trim the entry.
        let mut ts: usize = pos;
        while ts < cend && is_space_char(list.get_char(ts))
            invariant
                n == list@.len(),
                pos <= ts <= cend <= n,
                spec_space_run(list@.subrange(pos as int, cend as int)) == (ts - pos)
                    + spec_space_run(list@.subrange(ts as int, cend as int)),
            decreases cend - ts,
        {
            proof {
                assert(list@.subrange(ts as int, cend as int)[0] == list@[ts as int]);
                assert(list@.subrange(ts as int, cend as int).skip(1) =~= list@.subrange(
                    ts as int + 1,
                    cend as int,
                ));
            }
            ts = ts + 1;
        }
        let mut te: usize = cend;
        while te > ts && is_space_char(list.get_char(te - 1))
            invariant
                n == list@.len(),
                pos <= ts <= te <= cend <= n,
                ts < cend ==> !spec_is_space(list@[ts as int]),
                ts < cend ==> ts < te,
                spec_space_run_rev(list@.subrange(pos as int, cend as int)) == (cend - te)
                    + spec_space_run_rev(list@.subrange(pos as int, te as int)),
            decreases te - ts,
        {
            proof {
                assert(list@.subrange(pos as int, te as int).last() == list@[te as int - 1]);
                assert(list@.subrange(pos as int, te as int).drop_last() =~= list@.subrange(
                    pos as int,
                    te as int - 1,
                ));
            }
            te = te - 1;
        }
        proof {
            lemma_space_run_le(raw);
            lemma_space_run_rev_le(raw);
            if ts == cend {
                // All whitespace: the trimmed entry is empty.
                assert(list@.subrange(ts as int, cend as int).len() == 0);
                assert(spec_space_run(list@.subrange(ts as int, cend as int)) == 0);
                assert(spec_space_run(raw) == raw.len());
                assert(spec_trim(raw) =~= list@.subrange(ts as int, te as int));
            } else {
                assert(!spec_is_space(list@[ts as int]));
                assert(spec_space_run(list@.subrange(ts as int, cend as int)) == 0) by {
                    if spec_is_space(list@.subrange(ts as int, cend as int)[0]) {
                        assert(list@.subrange(ts as int, cend as int)[0] == list@[ts as int]);
                    }
                }
                assert(spec_space_run(raw) == ts - pos);
                assert(ts < te);
                assert(te == ts + 1 || !spec_is_space(list@[te as int - 1]));
                assert(spec_space_run_rev(list@.subrange(pos as int, te as int)) == 0) by {
                    let sub = list@.subrange(pos as int, te as int);
                    if sub.len() > 0 && spec_is_space(sub.last()) {
                        assert(sub.last() == list@[te as int - 1]);
                        assert(list@[ts as int] == sub[ts - pos]);
                    }
                }
                assert(spec_space_run_rev(raw) == cend - te);
                assert(spec_trim(raw) =~= list@.subrange(ts as int, te as int));
            }
        }
        let piece = list.substring_char(ts, te);
        let keep = !entry_matches(piece, item);
        if keep {
            if !first {
                out.append(", ");
            }
            out.append(piece);
            first = false;
        }
        proof {
            assert(out@ =~= out0 + (if !spec_entry_matches(spec_trim(raw), item@) {
                (if first0 {
                    Seq::<char>::empty()
                } else {
                    ", "@
                }) + spec_trim(raw)
            } else {
                Seq::<char>::empty()
            }));
        }
        if cend >= n {
            proof {
                assert(out@ =~= out0 + spec_remove_list_core(rem, item@, first0));
            }
            break ;
        }
        proof {
            assert(rem.skip(cend - pos + 1) =~= list@.skip(cend as int + 1));
            assert(out@ + spec_remove_list_core(list@.skip(cend as int + 1), item@, first0
                && spec_entry_matches(spec_trim(raw), item@)) =~= out0
                + spec_remove_list_core(rem, item@, first0));
            assert(first == (first0 && spec_entry_matches(spec_trim(raw), item@)));
        }
        pos = cend + 1;
    }
    out
}

/// Apply one `PatchField` action to a paragraph: `Append` joins with
/// `", "` (or sets outright when the field was empty or absent), `Replace`
/// with an empty value removes the field and otherwise sets it, and
/// `Remove` drops matching entries from the comma list.  The call fails
/// only when the new value is one deb822 storage refuses (a
/// whitespace-only continuation line, see `deb822_storable`), and then
/// leaves the paragraph unchanged; by `lemma_newline_free_storable` a
/// value without newlines is always accepted.
pub fn apply_field_patch(action: &AprilAction, paragraph: &mut deb822_lossless::Paragraph) -> (r:
    Result<(), AprilError>)
    requires
        action@ matches SpecAction::PatchField { .. },
    ensures
        ({
            let fields = para_fields(*old(paragraph));
            match action@ {
                SpecAction::PatchField { field, value, action: kind } => {
                    let idx = spec_find_key(fields, field);
                    let cur = if idx >= 0 {
                        fields[idx].1
                    } else {
                        Seq::<char>::empty()
                    };
                    let written: Option<Seq<char>> = match kind {
                        AprilActionType::Remove => Some(spec_remove_list(cur, value)),
                        AprilActionType::Append => Some(
                            if cur.len() == 0 {
                                value
                            } else {
                                cur + ", "@ + value
                            },
                        ),
                        AprilActionType::Replace => if value.len() == 0 {
                            None
                        } else {
                            Some(value)
                        },
                    };
                    &&& (match written {
                        Some(w) => {
                            &&& (r is Ok <==> deb822_storable(w))
                            &&& (r is Ok ==> para_fields(*final(paragraph)) == spec_set_field(
                                fields,
                                field,
                                w,
                            ))
                        },
                        None => r is Ok && para_fields(*final(paragraph)) == spec_remove_field(
                            fields,
                            field,
                        ),
                    })
                    &&& (r is Err ==> para_fields(*final(paragraph)) == fields && r matches Err(
                        AprilError::InvalidFieldValue(_),
                    ))
                },
                _ => false,
            }
        }),
{
    match action {
        AprilAction::PatchField { field, value, action: kind } => {
            let current = match para_get(paragraph, field.as_str()) {
                Some(v) => v,
                None => String::new(),
            };
            match kind {
                AprilActionType::Remove => {
                    let new_list = remove_item_from_string_list(
                        current.as_str(),
                        value.as_str(),
                    );
                    match para_try_set(paragraph, field.as_str(), new_list.as_str()) {
                        Ok(()) => Ok(()),
                        Err(()) => Err(AprilError::InvalidFieldValue(new_list)),
                    }
                },
                AprilActionType::Append => {
                    if current.as_str().is_empty() {
                        match para_try_set(paragraph, field.as_str(), value.as_str()) {
                            Ok(()) => Ok(()),
                            Err(()) => Err(AprilError::InvalidFieldValue(value.clone())),
                        }
                    } else {
                        let mut joined = current.clone();
                        joined.append(", ");
                        joined.append(value.as_str());
                        proof {
                            reveal_strlit(", ");
                        }
                        match para_try_set(paragraph, field.as_str(), joined.as_str()) {
                            Ok(()) => Ok(()),
                            Err(()) => Err(AprilError::InvalidFieldValue(joined)),
                        }
                    }
                },
                AprilActionType::Replace => {
                    if value.as_str().is_empty() {
                        para_remove(paragraph, field.as_str());
                        Ok(())
                    } else {
                        match para_try_set(paragraph, field.as_str(), value.as_str()) {
                            Ok(()) => Ok(()),
                            Err(()) => Err(AprilError::InvalidFieldValue(value.clone())),
                        }
                    }
                },
            }
        },
        _ => {
            proof {
                assert(false);
            }
            Err(AprilError::NotImplemented)
        },
    }
}

} // verus!
