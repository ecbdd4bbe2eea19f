//! Reading the kernel's per-process statistics (`/proc/<pid>/status`,
//! `/proc/<pid>/stat`, `/proc/<pid>/io`) out of their text. The files are read
//! by the caller; everything here works on their contents.

use vstd::prelude::*;
use crate::text::{
    chars_of, decimal, lemma_decimal_parses, lines, lines_of, parse_bounded, parse_u64, tokens,
    tokens_of,
};

verus! {

/// `line` begins with `key` (`str::starts_with`).
pub open spec fn starts_with(line: Seq<char>, key: Seq<char>) -> bool {
    key.len() <= line.len() && line.take(key.len() as int) == key
}

/// `Some(v)` as `v`, anything else as 0 (`.unwrap_or(0)` after a parse).
pub open spec fn or_zero(p: Option<nat>) -> nat {
    match p {
        Some(v) => v,
        None => 0,
    }
}

/// The number in the second whitespace-separated token of a line, 0 when
/// there is no such token or it is no `u64`.
pub open spec fn line_value(line: Seq<char>) -> nat {
    let tk = tokens(line);
    if tk.len() > 1 {
        or_zero(parse_bounded(tk[1], u64::MAX as nat))
    } else {
        0
    }
}

/// The value of the first line that begins with `key`, 0 when none does.
pub open spec fn first_field(ls: Seq<Seq<char>>, key: Seq<char>) -> nat
    decreases ls.len(),
{
    if ls.len() == 0 {
        0
    } else if starts_with(ls[0], key) {
        line_value(ls[0])
    } else {
        first_field(ls.drop_first(), key)
    }
}

/// The value of the last line that begins with `key`, 0 when none does.
pub open spec fn last_field(ls: Seq<Seq<char>>, key: Seq<char>) -> nat
    decreases ls.len(),
{
    if ls.len() == 0 {
        0
    } else if starts_with(ls.last(), key) {
        line_value(ls.last())
    } else {
        last_field(ls.drop_last(), key)
    }
}

/// Whether `line` begins with `key`.
pub fn line_starts_with(line: &[char], key: &[char]) -> (r: bool)
    ensures
        r == starts_with(line@, key@),
{
    if key.len() > line.len() {
        return false;
    }
    let mut i: usize = 0;
    while i < key.len()
        invariant
            key@.len() <= line@.len(),
            i <= key@.len(),
            forall|j: int| 0 <= j < i ==> line@[j] == key@[j],
        decreases key.len() - i,
    {
        if line[i] != key[i] {
            assert(line@.take(key@.len() as int)[i as int] != key@[i as int]);
            return false;
        }
        i = i + 1;
    }
    assert(line@.take(key@.len() as int) =~= key@);
    true
}

/// The number in the second whitespace-separated token of `line`, or 0.
pub fn line_value_exec(line: &[char]) -> (r: u64)
    ensures
        r as nat == line_value(line@),
{
    let tk = tokens_of(line);
    if tk.len() > 1 {
        assert(tk@[1]@ == tokens(line@)[1]);
        match parse_u64(tk[1].as_slice()) {
            Some(v) => v,
            None => 0,
        }
    } else {
        0
    }
}

/// The value of the first line of `text` that begins with `key`, or 0: how
/// `VmRSS:` and `VmHWM:` are read from a status file.
pub fn status_field_kb(text: &str, key: &str) -> (r: u64)
    ensures
        r as nat == first_field(lines(text@), key@),
{
    let cs = chars_of(text);
    let k = chars_of(key);
    let ls = lines_of(cs.as_slice());
    let ghost lv = lines(text@);
    let n = ls.len();
    let mut i: usize = 0;
    assert(lv.subrange(0, n as int) == lv);
    while i < n
        invariant
            n == ls@.len() == lv.len(),
            i <= n,
            k@ == key@,
            lv == lines(text@),
            forall|j: int| 0 <= j < n ==> #[trigger] ls@[j]@ == lv[j],
            first_field(lv, key@) == first_field(lv.subrange(i as int, n as int), key@),
        decreases n - i,
    {
        let ghost rest = lv.subrange(i as int, n as int);
        assert(rest[0] == ls@[i as int]@);
        assert(rest.drop_first() == lv.subrange(i + 1, n as int));
        if line_starts_with(ls[i].as_slice(), k.as_slice()) {
            assert(first_field(rest, key@) == line_value(rest[0]));
            return line_value_exec(ls[i].as_slice());
        }
        i = i + 1;
    }
    0
}

/// Current resident set size in kB: the `VmRSS:` line of a status file.
pub fn rss_kb(status: &str) -> (r: u64)
    ensures
        r as nat == first_field(lines(status@), "VmRSS:"@),
{
    status_field_kb(status, "VmRSS:")
}

/// Peak resident set size in kB: the `VmHWM:` line of a status file.
pub fn peak_rss_kb(status: &str) -> (r: u64)
    ensures
        r as nat == first_field(lines(status@), "VmHWM:"@),
{
    status_field_kb(status, "VmHWM:")
}

/// The user and system times, in clock ticks, of a stat file: its
/// fourteenth and fifteenth whitespace-separated fields, each 0 when it is no
/// `u64`, and both 0 when the file has fewer than fifteen fields.
pub open spec fn cpu_ticks(stat: Seq<char>) -> (nat, nat) {
    let parts = tokens(stat);
    if parts.len() < 15 {
        (0, 0)
    } else {
        (
            or_zero(parse_bounded(parts[13], u64::MAX as nat)),
            or_zero(parse_bounded(parts[14], u64::MAX as nat)),
        )
    }
}

/// Clock ticks per second: what `sysconf(_SC_CLK_TCK)` reported when it is
/// positive, else 100.
pub fn clock_ticks_per_sec(sysconf_value: i64) -> (r: u64)
    ensures
        sysconf_value > 0 ==> r == sysconf_value,
        sysconf_value <= 0 ==> r == 100,
        r > 0,
{
    if sysconf_value > 0 {
        sysconf_value as u64
    } else {
        100
    }
}

/// Microseconds in `ticks` clock ticks at `per_sec` ticks a second, with the
/// product taken modulo 2^64 as the release build computes it.
pub open spec fn ticks_to_us(ticks: nat, per_sec: nat) -> nat {
    ((ticks * 1_000_000) % 0x1_0000_0000_0000_0000) / per_sec
}

/// The user and system CPU time of the process in microseconds, from the text
/// of its stat file.
pub fn cpu_times_us(stat: &str, per_sec: u64) -> (r: (u128, u128))
    requires
        per_sec > 0,
    ensures
        r.0 as nat == ticks_to_us(cpu_ticks(stat@).0, per_sec as nat),
        r.1 as nat == ticks_to_us(cpu_ticks(stat@).1, per_sec as nat),
{
    let cs = chars_of(stat);
    let parts = tokens_of(cs.as_slice());
    if parts.len() < 15 {
        assert(ticks_to_us(0, per_sec as nat) == 0);
        return (0, 0);
    }
    assert(parts@[13]@ == tokens(stat@)[13]);
    assert(parts@[14]@ == tokens(stat@)[14]);
    let utime: u64 = match parse_u64(parts[13].as_slice()) {
        Some(v) => v,
        None => 0,
    };
    let stime: u64 = match parse_u64(parts[14].as_slice()) {
        Some(v) => v,
        None => 0,
    };
    let utime_us = utime.wrapping_mul(1_000_000) / per_sec;
    let stime_us = stime.wrapping_mul(1_000_000) / per_sec;
    (utime_us as u128, stime_us as u128)
}

/// Bytes read and written by the process, in kB, from the text of its io
/// file: the last `read_bytes:` and the last `write_bytes:` line, each divided
/// by 1024 (0 when there is no such line).
pub fn io_kb(io: &str) -> (r: (u64, u64))
    ensures
        r.0 as nat == last_field(lines(io@), "read_bytes:"@) / 1024,
        r.1 as nat == last_field(lines(io@), "write_bytes:"@) / 1024,
{
    let cs = chars_of(io);
    let rk = chars_of("read_bytes:");
    let wk = chars_of("write_bytes:");
    let ls = lines_of(cs.as_slice());
    let ghost lv = lines(io@);
    let n = ls.len();
    let mut read_bytes: u64 = 0;
    let mut write_bytes: u64 = 0;
    assert(lv.take(0) == Seq::<Seq<char>>::empty());
    for i in 0..n
        invariant
            n == ls@.len() == lv.len(),
            rk@ == "read_bytes:"@,
            wk@ == "write_bytes:"@,
            forall|j: int| 0 <= j < n ==> #[trigger] ls@[j]@ == lv[j],
            read_bytes as nat == last_field(lv.take(i as int), rk@),
            write_bytes as nat == last_field(lv.take(i as int), wk@),
    {
        let line = ls[i].as_slice();
        assert(lv.take(i + 1).drop_last() == lv.take(i as int));
        assert(lv.take(i + 1).last() == ls@[i as int]@);
        if line_starts_with(line, rk.as_slice()) {
            read_bytes = line_value_exec(line);
            assert(!starts_with(line@, wk@)) by {
                if starts_with(line@, wk@) {
                    reveal_strlit("read_bytes:");
                    reveal_strlit("write_bytes:");
                    assert(line@.take(rk@.len() as int)[0] == rk@[0]);
                    assert(line@.take(wk@.len() as int)[0] == wk@[0]);
                    assert(line@[0] == rk@[0]);
                    assert(line@[0] == wk@[0]);
                }
            }
        } else if line_starts_with(line, wk.as_slice()) {
            write_bytes = line_value_exec(line);
        }
    }
    assert(lv.take(n as int) == lv);
    (read_bytes / 1024, write_bytes / 1024)
}


/// A line whose second token is the decimal rendering of a `u64` reads as
/// that number.
pub proof fn law_line_value_reads_number(line: Seq<char>, v: nat)
    requires
        tokens(line).len() > 1,
        tokens(line)[1] == decimal(v),
        v <= u64::MAX,
    ensures
        line_value(line) == v,
{
    lemma_decimal_parses(v);
}

/// User and system ticks are the numbers written as the fourteenth and
/// fifteenth fields of a stat text.
pub proof fn law_cpu_ticks_read_fields(stat: Seq<char>, utime: nat, stime: nat)
    requires
        tokens(stat).len() >= 15,
        tokens(stat)[13] == decimal(utime),
        tokens(stat)[14] == decimal(stime),
        utime <= u64::MAX,
        stime <= u64::MAX,
    ensures
        cpu_ticks(stat) == (utime, stime),
{
    lemma_decimal_parses(utime);
    lemma_decimal_parses(stime);
}

/// A status value is read from the first line that begins with the key,
/// wherever in the text that line stands.
pub proof fn law_first_matching_line(ls: Seq<Seq<char>>, key: Seq<char>, i: int)
    requires
        0 <= i < ls.len(),
        starts_with(ls[i], key),
        forall|j: int| 0 <= j < i ==> !starts_with(#[trigger] ls[j], key),
    ensures
        first_field(ls, key) == line_value(ls[i]),
    decreases i,
{
    if i > 0 {
        assert(!starts_with(ls[0], key));
        let rest = ls.drop_first();
        assert(rest[i - 1] == ls[i]);
        assert forall|j: int| 0 <= j < i - 1 implies !starts_with(#[trigger] rest[j], key) by {
            assert(rest[j] == ls[j + 1]);
        }
        law_first_matching_line(rest, key, i - 1);
    }
}

/// An I/O counter is read from the last line that begins with the key,
/// wherever in the text that line stands.
pub proof fn law_last_matching_line(ls: Seq<Seq<char>>, key: Seq<char>, i: int)
    requires
        0 <= i < ls.len(),
        starts_with(ls[i], key),
        forall|j: int| i < j < ls.len() ==> !starts_with(#[trigger] ls[j], key),
    ensures
        last_field(ls, key) == line_value(ls[i]),
    decreases ls.len() - i,
{
    if i < ls.len() - 1 {
        assert(!starts_with(ls[ls.len() - 1], key));
        let rest = ls.drop_last();
        assert(rest[i] == ls[i]);
        assert forall|j: int| i < j < rest.len() implies !starts_with(#[trigger] rest[j], key) by {
            assert(rest[j] == ls[j]);
        }
        law_last_matching_line(rest, key, i);
    }
}

/// A counter whose line is missing reads as 0, whichever line is taken.
pub proof fn law_missing_line_reads_zero(ls: Seq<Seq<char>>, key: Seq<char>)
    requires
        forall|i: int| 0 <= i < ls.len() ==> !starts_with(#[trigger] ls[i], key),
    ensures
        first_field(ls, key) == 0,
        last_field(ls, key) == 0,
    decreases ls.len(),
{
    if ls.len() > 0 {
        assert(!starts_with(ls[0], key));
        assert(!starts_with(ls[ls.len() - 1], key));
        let a = ls.drop_first();
        let b = ls.drop_last();
        assert forall|i: int| 0 <= i < a.len() implies !starts_with(#[trigger] a[i], key) by {
            assert(a[i] == ls[i + 1]);
        }
        assert forall|i: int| 0 <= i < b.len() implies !starts_with(#[trigger] b[i], key) by {
            assert(b[i] == ls[i]);
        }
        law_missing_line_reads_zero(a, key);
        law_missing_line_reads_zero(b, key);
    }
}

} // verus!
