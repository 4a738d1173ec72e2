//! The tail-selection engine: parse a signed take-specification, resolve
//! it against a file's total line or byte count, and extract the selected
//! suffix of the record stream.
//!
//! A record is a newline-terminated line in line mode (the final record
//! may lack its terminator) and a single byte in byte mode.

use vstd::prelude::*;

use crate::text::{all_digits, digits_val};
use vstd::string::StringExecFns;

verus! {

/// A normalized take-specification.
///
/// `PlusZero` is the literal input `+0`: start at the first record unless
/// the file is empty.  `TakeNum(n)` with positive `n` (spelled with a
/// leading `+`) starts at record number `n` counting from one; `n <= 0`
/// (the default sign) keeps the last `|n|` records.  `TakeNum(0)` shows
/// nothing, unlike `PlusZero`, which shows everything.
#[derive(Debug, PartialEq, Eq, Structural, Clone, Copy)]
pub enum TakeValue {
    PlusZero,
    TakeNum(i64),
}

/// Does the text begin with an explicit sign character?
pub open spec fn has_sign(s: Seq<char>) -> bool {
    s.len() > 0 && (s[0] == '+' || s[0] == '-')
}

/// The digits of the text, after at most one leading sign.
pub open spec fn digits_part(s: Seq<char>) -> Seq<char> {
    if has_sign(s) {
        s.skip(1)
    } else {
        s
    }
}

/// The text is at most one sign followed by at least one digit.
pub open spec fn well_formed_take(s: Seq<char>) -> bool {
    digits_part(s).len() > 0 && all_digits(digits_part(s))
}

/// The unsigned magnitude spelled by the digits.
pub open spec fn take_magnitude(s: Seq<char>) -> nat {
    digits_val(digits_part(s))
}

/// The take-specification denoted by a piece of text, if any.
///
/// An absent sign reads as `-`: plain `5` keeps the last five records.
/// Only the exact spelling `+0` yields `PlusZero`.  A magnitude outside
/// the signed 64-bit range is rejected; `-9223372036854775808` itself is
/// accepted, whether or not the `-` is spelled out.
pub open spec fn parsed_take(s: Seq<char>) -> Option<TakeValue> {
    if !well_formed_take(s) {
        None
    } else if s.len() > 0 && s[0] == '+' {
        if take_magnitude(s) > i64::MAX {
            None
        } else if take_magnitude(s) == 0 {
            Some(TakeValue::PlusZero)
        } else {
            Some(TakeValue::TakeNum(take_magnitude(s) as i64))
        }
    } else {
        if take_magnitude(s) > 9223372036854775808 {
            None
        } else {
            Some(TakeValue::TakeNum((-(take_magnitude(s) as int)) as i64))
        }
    }
}

/// Parse a textual count.  An unsigned or `-`-signed value keeps records
/// from the end; a `+`-signed value starts at that record from the front;
/// `+0` is the whole-file marker.  On any malformed or out-of-range input
/// the error carries the original text verbatim.
pub fn parse_num(val: &str) -> (r: Result<TakeValue, String>)
    ensures
        match parsed_take(val@) {
            Some(tv) => r == Ok::<TakeValue, String>(tv),
            None => r matches Err(e) && e@ == val@,
        },
{
    let cs = crate::text::chars_of(val);
    let signed: bool = cs.len() > 0 && (cs[0] == '+' || cs[0] == '-');
    let plus: bool = cs.len() > 0 && cs[0] == '+';
    let from: usize = if signed {
        1
    } else {
        0
    };
    proof {
        assert(cs@.subrange(from as int, cs@.len() as int) =~= digits_part(val@));
    }
    match crate::text::scan_digits(&cs, from, cs.len()) {
        None => Err(String::from_str(val)),
        Some(mag) => {
            if plus {
                if mag > i64::MAX as u64 {
                    Err(String::from_str(val))
                } else if mag == 0 {
                    Ok(TakeValue::PlusZero)
                } else {
                    Ok(TakeValue::TakeNum(mag as i64))
                }
            } else {
                if mag > 9223372036854775808u64 {
                    Err(String::from_str(val))
                } else if mag == 9223372036854775808u64 {
                    Ok(TakeValue::TakeNum(i64::MIN))
                } else {
                    Ok(TakeValue::TakeNum(-(mag as i64)))
                }
            }
        },
    }
}

/// Parse a byte-count argument; the accepted grammar and the result are
/// those of [`parse_num`].
pub fn parse_input_num(val: &str) -> (r: Result<TakeValue, String>)
    ensures
        match parsed_take(val@) {
            Some(tv) => r == Ok::<TakeValue, String>(tv),
            None => r matches Err(e) && e@ == val@,
        },
{
    parse_num(val)
}

/// Parse a textual count by plain character scanning; the accepted
/// grammar and the result are those of [`parse_num`].
pub fn parse_num_normal(val: &str) -> (r: Result<TakeValue, String>)
    ensures
        match parsed_take(val@) {
            Some(tv) => r == Ok::<TakeValue, String>(tv),
            None => r matches Err(e) && e@ == val@,
        },
{
    parse_num(val)
}

/// The zero-based start index selected by a take-specification against a
/// total record count, or `None` when nothing is to be emitted.
///
/// `PlusZero` starts at the first record of a nonempty file.  `TakeNum(0)`
/// and an empty file emit nothing, as does a from-the-front request larger
/// than the total.  A from-the-front request starts at `n - 1`; a
/// from-the-end request starts at `total + n`, clamped to the beginning.
pub open spec fn start_index_spec(tv: TakeValue, total: int) -> Option<int> {
    match tv {
        TakeValue::PlusZero => if total == 0 {
            None
        } else {
            Some(0)
        },
        TakeValue::TakeNum(n) => if total == 0 || n == 0 || n > total {
            None
        } else if n > 0 {
            Some(n - 1)
        } else {
            if total + n > 0 {
                Some(total + n)
            } else {
                Some(0)
            }
        },
    }
}

/// Resolve a take-specification against a total record count.
pub fn get_start_index(take_val: &TakeValue, total: i64) -> (r: Option<u64>)
    requires
        total >= 0,
    ensures
        match start_index_spec(*take_val, total as int) {
            Some(ix) => r matches Some(u) && u == ix,
            None => r is None,
        },
{
    match take_val {
        TakeValue::PlusZero => {
            if total == 0 {
                None
            } else {
                Some(0)
            }
        },
        TakeValue::TakeNum(num) => {
            let num = *num;
            if total == 0 || num == 0 || num > total {
                None
            } else if num > 0 {
                Some((num - 1) as u64)
            } else {
                let start = total + num;
                if start > 0 {
                    Some(start as u64)
                } else {
                    Some(0)
                }
            }
        },
    }
}

/// Length of the first record of `data`: up to and including the first
/// newline, or all of `data` when no newline remains.
pub open spec fn first_record_len(data: Seq<u8>) -> int
    decreases data.len(),
{
    if data.len() == 0 {
        0
    } else if data[0] == 10 {
        1
    } else {
        1 + first_record_len(data.skip(1))
    }
}

/// The first record consumes at least one byte and at most all of them.
pub proof fn lemma_first_record_len_bounds(data: Seq<u8>)
    ensures
        data.len() > 0 ==> 1 <= first_record_len(data) <= data.len(),
        data.len() == 0 ==> first_record_len(data) == 0,
    decreases data.len(),
{
    if data.len() > 0 && data[0] != 10 {
        lemma_first_record_len_bounds(data.skip(1));
    }
}

/// Locating the first newline locates the first record: if no newline
/// stands before position `j`, and `j` is a newline or the end, the first
/// record runs through `j`.
pub proof fn lemma_first_record_len_at(data: Seq<u8>, j: int)
    requires
        0 <= j <= data.len(),
        forall|i: int| 0 <= i < j ==> data[i] != 10,
        j < data.len() ==> data[j] == 10,
    ensures
        first_record_len(data) == if j < data.len() {
            j + 1
        } else {
            data.len() as int
        },
    decreases j,
{
    if j == 0 {
    } else {
        assert(data[0] != 10);
        lemma_first_record_len_at(data.skip(1), j - 1);
    }
}

/// The records of `data`: the byte stream split after each newline, the
/// final unterminated piece (if any) standing as a record of its own.
pub open spec fn records(data: Seq<u8>) -> Seq<Seq<u8>>
    decreases data.len(),
    via records_decreases
{
    if data.len() == 0 {
        Seq::empty()
    } else {
        seq![data.take(first_record_len(data))] + records(data.skip(first_record_len(data)))
    }
}

#[via_fn]
proof fn records_decreases(data: Seq<u8>) {
    lemma_first_record_len_bounds(data);
}

/// There are no more records than bytes.
pub proof fn lemma_records_count_le(data: Seq<u8>)
    ensures
        records(data).len() <= data.len(),
    decreases data.len(),
{
    if data.len() > 0 {
        lemma_first_record_len_bounds(data);
        lemma_records_count_le(data.skip(first_record_len(data)));
    }
}

/// The records of `data`, concatenated back together, are `data`.
pub proof fn lemma_records_flatten(data: Seq<u8>)
    ensures
        records(data).flatten() == data,
    decreases data.len(),
{
    if data.len() == 0 {
        assert(records(data).flatten() =~= data);
    } else {
        lemma_first_record_len_bounds(data);
        let l = first_record_len(data);
        lemma_records_flatten(data.skip(l));
        let rs = records(data);
        assert(rs.first() == data.take(l));
        assert(rs.drop_first() =~= records(data.skip(l)));
        assert(rs.flatten() == data.take(l) + records(data.skip(l)).flatten());
        assert(data.take(l) + data.skip(l) =~= data);
    }
}

/// What remains of `data` after skipping its first `k` records: the
/// suffix emitted by line-mode extraction from start index `k`.
pub open spec fn tail_from(data: Seq<u8>, k: nat) -> Seq<u8>
    decreases data.len(),
    via tail_from_decreases
{
    if k == 0 {
        data
    } else if data.len() == 0 {
        Seq::<u8>::empty()
    } else {
        tail_from(data.skip(first_record_len(data)), (k - 1) as nat)
    }
}

#[via_fn]
proof fn tail_from_decreases(data: Seq<u8>, k: nat) {
    lemma_first_record_len_bounds(data);
}

/// Passing one non-newline byte does not change which records remain.
pub proof fn lemma_tail_from_step(s: Seq<u8>, k: nat)
    requires
        k > 0,
        s.len() > 0,
        s[0] != 10,
    ensures
        tail_from(s, k) == tail_from(s.skip(1), k),
{
    lemma_first_record_len_bounds(s);
    let l = first_record_len(s);
    if s.skip(1).len() == 0 {
        assert(l == s.len());
        assert(s.skip(l) =~= Seq::<u8>::empty());
        assert(s.skip(1) =~= Seq::<u8>::empty());
        assert(tail_from(s, k) == tail_from(s.skip(l), (k - 1) as nat));
        assert(tail_from(Seq::<u8>::empty(), (k - 1) as nat) =~= Seq::<u8>::empty());
        assert(tail_from(s.skip(1), k) =~= Seq::<u8>::empty());
    } else {
        lemma_first_record_len_bounds(s.skip(1));
        assert(l == 1 + first_record_len(s.skip(1)));
        assert(s.skip(l) =~= s.skip(1).skip(first_record_len(s.skip(1))));
    }
}

/// Skipping `k` records leaves exactly the records from index `k` on.
pub proof fn lemma_tail_from_records(data: Seq<u8>, k: nat)
    requires
        k <= records(data).len(),
    ensures
        tail_from(data, k) == records(data).skip(k as int).flatten(),
    decreases data.len(),
{
    if k == 0 {
        assert(records(data).skip(0) =~= records(data));
        lemma_records_flatten(data);
    } else {
        lemma_first_record_len_bounds(data);
        let l = first_record_len(data);
        lemma_tail_from_records(data.skip(l), (k - 1) as nat);
        assert(records(data).skip(k as int) =~= records(data.skip(l)).skip(k as int - 1));
    }
}

/// Count the terminated-or-final records of `data` and its bytes.
pub fn count_lines_bytes(data: &Vec<u8>) -> (r: (i64, i64))
    requires
        data@.len() <= i64::MAX,
    ensures
        r.0 == records(data@).len(),
        r.1 == data@.len(),
{
    let n = data.len();
    let mut p: usize = 0;
    let mut cnt: u64 = 0;
    proof {
        assert(data@.skip(0) =~= data@);
    }
    while p < n
        invariant
            0 <= p <= n,
            n == data@.len() <= i64::MAX,
            cnt <= p,
            cnt + records(data@.skip(p as int)).len() == records(data@).len(),
        decreases n - p,
    {
        let mut q: usize = p;
        while q < n && data[q] != 10
            invariant
                p <= q <= n,
                n == data@.len(),
                forall|i: int| p <= i < q ==> data@[i] != 10,
            decreases n - q,
        {
            q = q + 1;
        }
        let next: usize = if q < n {
            q + 1
        } else {
            q
        };
        proof {
            let rest = data@.skip(p as int);
            assert(forall|i: int| 0 <= i < q - p ==> rest[i] != 10);
            lemma_first_record_len_at(rest, q - p);
            assert(rest.skip(first_record_len(rest)) =~= data@.skip(next as int));
        }
        cnt = cnt + 1;
        p = next;
    }
    proof {
        assert(data@.skip(p as int) =~= Seq::<u8>::empty());
        lemma_records_count_le(data@);
    }
    (cnt as i64, n as i64)
}

/// Emit everything from the start of record number `start` (zero-based)
/// to the end of `data`; nothing if fewer than `start` records exist.
pub fn tail_lines(data: &Vec<u8>, start: u64) -> (r: Vec<u8>)
    ensures
        r@ == tail_from(data@, start as nat),
{
    let n = data.len();
    let mut p: usize = 0;
    let mut skipped: u64 = 0;
    proof {
        assert(data@.skip(0) =~= data@);
    }
    while skipped < start && p < n
        invariant
            0 <= p <= n,
            n == data@.len(),
            skipped <= start,
            tail_from(data@.skip(p as int), (start - skipped) as nat) == tail_from(
                data@,
                start as nat,
            ),
        decreases n - p,
    {
        proof {
            let rest = data@.skip(p as int);
            if data@[p as int] == 10 {
                assert(first_record_len(rest) == 1);
                assert(rest.skip(1) =~= data@.skip(p + 1 as int));
            } else {
                lemma_tail_from_step(rest, (start - skipped) as nat);
                assert(rest.skip(1) =~= data@.skip(p + 1 as int));
            }
        }
        if data[p] == 10 {
            skipped = skipped + 1;
        }
        p = p + 1;
    }
    let mut r: Vec<u8> = Vec::new();
    let mut j: usize = p;
    while j < n
        invariant
            p <= j <= n,
            n == data@.len(),
            r@ == data@.subrange(p as int, j as int),
        decreases n - j,
    {
        r.push(data[j]);
        j = j + 1;
        proof {
            assert(r@ =~= data@.subrange(p as int, j as int));
        }
    }
    proof {
        assert(r@ =~= data@.skip(p as int));
        if skipped == start {
            assert(tail_from(data@.skip(p as int), 0) == data@.skip(p as int));
        } else {
            assert(p == n);
            assert(data@.skip(p as int) =~= Seq::<u8>::empty());
        }
    }
    r
}

/// Line-mode extraction end to end: what an invocation emits for `data`
/// under take-specification `tv`, with the total supplied by a counting
/// pass over the same bytes.
pub open spec fn line_extraction(tv: TakeValue, data: Seq<u8>) -> Seq<u8> {
    match start_index_spec(tv, records(data).len() as int) {
        None => Seq::<u8>::empty(),
        Some(ix) => tail_from(data, ix as nat),
    }
}

/// Byte-mode extraction end to end, the total being the byte count.
pub open spec fn byte_extraction(tv: TakeValue, data: Seq<u8>) -> Seq<u8> {
    match start_index_spec(tv, data.len() as int) {
        None => Seq::<u8>::empty(),
        Some(ix) => byte_tail(data, ix as nat),
    }
}

/// Extraction correctness, trailing form: for a stream of `N` records,
/// a request for the last `k` of them (`1 <= k <= N`) resolves to start
/// index `N - k`, and extraction from there emits exactly the last `k`
/// records, in order and verbatim.
pub proof fn lemma_tail_keeps_last_records(data: Seq<u8>, k: i64)
    requires
        1 <= k,
        k as int <= records(data).len(),
    ensures
        start_index_spec(TakeValue::TakeNum((-(k as int)) as i64), records(data).len() as int)
            == Some(records(data).len() - k),
        line_extraction(TakeValue::TakeNum((-(k as int)) as i64), data) == records(data).skip(
            records(data).len() - k,
        ).flatten(),
{
    lemma_tail_from_records(data, (records(data).len() - k) as nat);
}

/// Extraction correctness, leading form: a request starting at record
/// number `k` from the front (`1 <= k <= N`) resolves to start index
/// `k - 1`, and extraction emits exactly records `k` through `N`
/// (numbered from one), in order and verbatim.
pub proof fn lemma_tail_from_record_number(data: Seq<u8>, k: i64)
    requires
        1 <= k,
        k as int <= records(data).len(),
    ensures
        start_index_spec(TakeValue::TakeNum(k), records(data).len() as int) == Some(k - 1),
        line_extraction(TakeValue::TakeNum(k), data) == records(data).skip(k - 1).flatten(),
{
    lemma_tail_from_records(data, (k - 1) as nat);
}

/// Extraction correctness in byte mode: a request for the last `k` bytes
/// of `N` (`1 <= k <= N`) resolves to start offset `N - k` and emits
/// exactly the last `k` bytes.
pub proof fn lemma_byte_tail_keeps_last(data: Seq<u8>, k: i64)
    requires
        1 <= k,
        k as int <= data.len(),
    ensures
        start_index_spec(TakeValue::TakeNum((-(k as int)) as i64), data.len() as int) == Some(
            data.len() - k,
        ),
        byte_extraction(TakeValue::TakeNum((-(k as int)) as i64), data) == data.skip(
            data.len() - k,
        ),
        byte_extraction(TakeValue::TakeNum((-(k as int)) as i64), data).len() == k,
{
}

/// Idempotence: extraction is a function of the take-specification and
/// the bytes alone, so re-running it on an unmodified stream yields
/// byte-identical output, in either mode.
pub proof fn lemma_extraction_idempotent(tv: TakeValue, data1: Seq<u8>, data2: Seq<u8>)
    requires
        data1 == data2,
    ensures
        line_extraction(tv, data1) == line_extraction(tv, data2),
        byte_extraction(tv, data1) == byte_extraction(tv, data2),
{
}

/// The suffix emitted by byte-mode extraction from start offset `k`:
/// `data` from byte `k` on, or nothing when `k` lies beyond the end.
pub open spec fn byte_tail(data: Seq<u8>, k: nat) -> Seq<u8> {
    if k <= data.len() {
        data.skip(k as int)
    } else {
        Seq::empty()
    }
}

/// Emit everything from byte offset `start` to the end of `data`.
pub fn tail_bytes(data: &Vec<u8>, start: u64) -> (r: Vec<u8>)
    ensures
        r@ == byte_tail(data@, start as nat),
{
    let n = data.len();
    let mut r: Vec<u8> = Vec::new();
    if start >= n as u64 {
        proof {
            assert(start as nat >= n ==> r@ =~= byte_tail(data@, start as nat));
        }
        return r;
    }
    let mut j: usize = start as usize;
    let ghost p = j as int;
    proof {
        assert(r@ =~= data@.subrange(p, p));
    }
    while j < n
        invariant
            0 <= p <= j <= n,
            n == data@.len(),
            r@ == data@.subrange(p, j as int),
        decreases n - j,
    {
        r.push(data[j]);
        j = j + 1;
        proof {
            assert(r@ =~= data@.subrange(p, j as int));
        }
    }
    proof {
        assert(r@ =~= data@.skip(p));
    }
    r
}

/// One target file as handed over by the caller: its name, and either
/// its bytes or the reason it could not be read.
#[derive(Debug)]
pub struct SourceFile {
    pub name: String,
    pub content: Result<Vec<u8>, String>,
}

/// What one invocation emits for the bytes of one file: byte-mode
/// extraction when a byte count was given, line-mode extraction under
/// the line count otherwise.
pub open spec fn file_extraction(lines: TakeValue, bytes_mode: Option<TakeValue>, data: Seq<
    u8,
>) -> Seq<u8> {
    match bytes_mode {
        Some(tv) => byte_extraction(tv, data),
        None => line_extraction(lines, data),
    }
}

/// The header line naming a file, as emitted before its content when
/// several files are processed and headers are not suppressed.
pub open spec fn header_bytes(name: Seq<char>) -> Seq<u8> {
    vstd::utf8::encode_utf8("==> "@) + vstd::utf8::encode_utf8(name) + vstd::utf8::encode_utf8(
        " <==\n"@,
    )
}

/// What one file contributes to the output stream.  A file that could
/// not be read contributes nothing; a readable file contributes its
/// extraction, preceded by its header when headers are shown, and by one
/// separating blank line when headed output came before it.
pub open spec fn item_output(
    f: SourceFile,
    lines: TakeValue,
    bytes_mode: Option<TakeValue>,
    show: bool,
    started: bool,
) -> Seq<u8> {
    match f.content {
        Ok(data) => (if show && started {
            seq![10u8]
        } else {
            Seq::<u8>::empty()
        }) + (if show {
            header_bytes(f.name@)
        } else {
            Seq::<u8>::empty()
        }) + file_extraction(lines, bytes_mode, data@),
        Err(_) => Seq::<u8>::empty(),
    }
}

/// The output stream contributed by the files from index `i` on, given
/// whether any readable file came before them.
pub open spec fn output_from(
    files: Seq<SourceFile>,
    i: int,
    lines: TakeValue,
    bytes_mode: Option<TakeValue>,
    show: bool,
    started: bool,
) -> Seq<u8>
    decreases files.len() - i,
{
    if i < 0 || i >= files.len() {
        Seq::<u8>::empty()
    } else {
        item_output(files[i], lines, bytes_mode, show, started) + output_from(
            files,
            i + 1,
            lines,
            bytes_mode,
            show,
            started || files[i].content is Ok,
        )
    }
}

/// The error reports for the files from index `i` on, one per unreadable
/// file, each the file's name and the reason it could not be read.
pub open spec fn errors_from(files: Seq<SourceFile>, i: int) -> Seq<Seq<char>>
    decreases files.len() - i,
{
    if i < 0 || i >= files.len() {
        Seq::<Seq<char>>::empty()
    } else {
        (match files[i].content {
            Err(msg) => seq![files[i].name@ + ": "@ + msg@],
            Ok(_) => Seq::<Seq<char>>::empty(),
        }) + errors_from(files, i + 1)
    }
}

/// Process the given files in order under one take-specification,
/// producing the single output stream and the per-file error reports.
///
/// Every readable file is counted and extracted; a file that could not
/// be read is reported and skipped, without disturbing the output of the
/// files around it.  With more than one file and headers not suppressed,
/// each readable file's content is preceded by its header line, and a
/// blank line separates successive files' output — none before the first
/// nor after the last.
pub fn run_files(
    files: &Vec<SourceFile>,
    lines: &TakeValue,
    bytes_mode: &Option<TakeValue>,
    quiet: bool,
) -> (r: (Vec<u8>, Vec<String>))
    requires
        forall|i: int|
            0 <= i < files@.len() ==> (#[trigger] files@[i].content matches Ok(d) ==> d@.len()
                <= i64::MAX),
    ensures
        r.0@ == output_from(files@, 0, *lines, *bytes_mode, files@.len() > 1 && !quiet, false),
        r.1.deep_view() == errors_from(files@, 0),
        r.1.len() == 0 <==> (forall|i: int|
            0 <= i < files@.len() ==> !(#[trigger] files@[i].content is Err)),
{
    let show = files.len() > 1 && !quiet;
    let mut out: Vec<u8> = Vec::new();
    let mut errs: Vec<String> = Vec::new();
    let mut started = false;
    let n = files.len();
    let ghost total_out = output_from(files@, 0, *lines, *bytes_mode, show, false);
    let ghost total_errs = errors_from(files@, 0);
    let mut i: usize = 0;
    while i < n
        invariant
            0 <= i <= n,
            n == files@.len(),
            show == (files@.len() > 1 && !quiet),
            forall|j: int|
                0 <= j < files@.len() ==> (#[trigger] files@[j].content matches Ok(d) ==> d@.len()
                    <= i64::MAX),
            out@ + output_from(files@, i as int, *lines, *bytes_mode, show, started) == total_out,
            errs.deep_view() + errors_from(files@, i as int) == total_errs,
            errs.len() == 0 <==> (forall|j: int|
                0 <= j < i ==> !(#[trigger] files@[j].content is Err)),
        decreases n - i,
    {
        let ghost pre_out = out@;
        let ghost pre_errs = errs.deep_view();
        let ghost pre_started = started;
        match &files[i].content {
            Ok(data) => {
                if show {
                    if started {
                        out.push(10u8);
                    }
                    out.extend_from_slice("==> ".as_bytes());
                    out.extend_from_slice(files[i].name.as_str().as_bytes());
                    out.extend_from_slice(" <==\n".as_bytes());
                }
                let (total_l, total_b) = count_lines_bytes(data);
                let chunk: Vec<u8> = match bytes_mode {
                    Some(tv) => {
                        match get_start_index(tv, total_b) {
                            Some(s) => tail_bytes(data, s),
                            None => Vec::new(),
                        }
                    },
                    None => {
                        match get_start_index(lines, total_l) {
                            Some(s) => tail_lines(data, s),
                            None => Vec::new(),
                        }
                    },
                };
                out.extend_from_slice(chunk.as_slice());
                started = true;
                proof {
                    assert(out@ =~= pre_out + item_output(
                        files@[i as int],
                        *lines,
                        *bytes_mode,
                        show,
                        pre_started,
                    ));
                }
            },
            Err(msg) => {
                let mut report = files[i].name.clone();
                report.append(": ");
                report.append(msg.as_str());
                errs.push(report);
                proof {
                    assert(errs.deep_view() =~= pre_errs + seq![
                        files@[i as int].name@ + ": "@ + msg@,
                    ]);
                }
            },
        }
        proof {
            assert(pre_out + output_from(files@, i as int, *lines, *bytes_mode, show, pre_started)
                =~= out@ + output_from(files@, i + 1, *lines, *bytes_mode, show, started));
            assert(pre_errs + errors_from(files@, i as int) =~= errs.deep_view() + errors_from(
                files@,
                i + 1,
            ));
        }
        i = i + 1;
    }
    proof {
        assert(output_from(files@, n as int, *lines, *bytes_mode, show, started) =~= Seq::<
            u8,
        >::empty());
        assert(errors_from(files@, n as int) =~= Seq::<Seq<char>>::empty());
        assert(out@ =~= total_out);
        assert(errs.deep_view() =~= total_errs);
    }
    (out, errs)
}

} // verus!
