use vstd::prelude::*;

use crate::text::{
    chars_of, decimal, find, find_from, has_prefix, is_whitespace, is_ws, matches_at, occurs_at,
    opt_view, push_decimal, slice_vec, starts_with, string_of, trim_range, trim_ws,
};

verus! {

/// The text that precedes the load figures in the uptime report.
pub open spec fn load_marker() -> Seq<char> {
    "load average: "@
}

/// The first comma-separated field after the first load marker, up to any later marker.
pub open spec fn load_field(s: Seq<char>) -> Seq<char> {
    match find_from(s, load_marker(), 0) {
        None => Seq::empty(),
        Some(i) => {
            let rest = s.subrange((i + load_marker().len()) as int, s.len() as int);
            let seg = match find_from(rest, load_marker(), 0) {
                Some(j) => rest.take(j as int),
                None => rest,
            };
            match find_from(seg, seq![','], 0) {
                Some(k) => seg.take(k as int),
                None => seg,
            }
        }
    }
}

/// The short-term load average as reported, trimmed.
pub open spec fn cpu_load_text(s: Seq<char>) -> Seq<char> {
    trim_ws(load_field(s))
}

/// Extracts the first load-average figure from the text of an uptime report.
pub fn get_cpu_load(uptime_out: &str) -> (r: String)
    ensures
        r@ == cpu_load_text(uptime_out@),
{
    let v = chars_of(uptime_out);
    let mark = chars_of("load average: ");
    match find(&v, &mark, 0) {
        None => {
            let r = String::new();
            assert(r@ =~= cpu_load_text(uptime_out@));
            r
        },
        Some(i) => {
            let n = v.len();
            assert(mark@ == load_marker());
            assert(i + mark.len() <= n);
            let a = i + mark.len();
            let rest = slice_vec(&v, a, v.len());
            let seg_end = match find(&rest, &mark, 0) {
                Some(j) => j,
                None => rest.len(),
            };
            let seg = slice_vec(&rest, 0, seg_end);
            let comma = vec![','];
            let k = match find(&seg, &comma, 0) {
                Some(k) => k,
                None => seg.len(),
            };
            assert(comma@ =~= seq![',']);
            assert(seg@ == match find_from(rest@, load_marker(), 0) {
                Some(j) => rest@.take(j as int),
                None => rest@,
            });
            assert(load_field(v@) == seg@.take(k as int));
            assert(v@.subrange(a as int, a + k) =~= seg@.take(k as int));
            let (x, y) = trim_range(&v, a, a + k);
            string_of(uptime_out, x, y)
        },
    }
}

/// The tag that opens the memory row of the free report.
pub open spec fn mem_tag() -> Seq<char> {
    "Mem:"@
}

/// Whether a line of `s` begins at position `i`.
pub open spec fn line_start(s: Seq<char>, i: int) -> bool {
    i == 0 || (0 < i <= s.len() && s[i - 1] == '\n')
}

/// The first position at or after `i` that begins a line opening with the memory tag.
pub open spec fn mem_line_from(s: Seq<char>, i: nat) -> Option<nat>
    decreases s.len() + 1 - i,
{
    if i + mem_tag().len() > s.len() {
        None
    } else if line_start(s, i as int) && occurs_at(s, mem_tag(), i as int) {
        Some(i)
    } else {
        mem_line_from(s, i + 1)
    }
}

/// The line of `s` that begins at `i`, without its line break.
pub open spec fn line_at(s: Seq<char>, i: nat) -> Seq<char> {
    match find_from(s, seq!['\n'], i) {
        Some(e) => s.subrange(i as int, e as int),
        None => s.subrange(i as int, s.len() as int),
    }
}

/// The number of non-whitespace characters that open `s`.
pub open spec fn word_len(s: Seq<char>) -> nat
    decreases s.len(),
{
    if s.len() > 0 && !is_ws(s[0]) {
        1 + word_len(s.drop_first())
    } else {
        0
    }
}

/// The `n`-th whitespace-separated field of `s`, counting from 0, where `in_word` says
/// that `s` starts inside a field already counted.
pub open spec fn field_from(s: Seq<char>, n: nat, in_word: bool) -> Option<Seq<char>>
    decreases s.len(),
{
    if s.len() == 0 {
        None
    } else if is_ws(s[0]) {
        field_from(s.drop_first(), n, false)
    } else if in_word {
        field_from(s.drop_first(), n, true)
    } else if n == 0 {
        Some(s.take(word_len(s) as int))
    } else {
        field_from(s.drop_first(), (n - 1) as nat, true)
    }
}

/// The `n`-th whitespace-separated field of `s`, counting from 0.
pub open spec fn nth_field(s: Seq<char>, n: nat) -> Option<Seq<char>> {
    field_from(s, n, false)
}

/// Whether every character of `s` is an ASCII digit.
pub open spec fn all_digits(s: Seq<char>) -> bool {
    forall|k: int| 0 <= k < s.len() ==> '0' <= #[trigger] s[k] <= '9'
}

/// The value of the decimal numeral `s`.
pub open spec fn digits_value(s: Seq<char>) -> int
    decreases s.len(),
{
    if s.len() == 0 {
        0
    } else {
        digits_value(s.drop_last()) * 10 + ((s.last() as u32) as int - ('0' as u32) as int)
    }
}

/// `f` without a leading plus sign.
pub open spec fn unsigned_part(f: Seq<char>) -> Seq<char> {
    if f.len() > 0 && f[0] == '+' {
        f.drop_first()
    } else {
        f
    }
}

/// A count written in decimal digits after an optional plus sign, held to the range of
/// `u64`.
pub open spec fn parse_count(f: Seq<char>) -> Option<nat> {
    count_value(unsigned_part(f))
}

/// A count written in decimal digits, held to the range of `u64`.
pub open spec fn count_value(f: Seq<char>) -> Option<nat> {
    if f.len() > 0 && all_digits(f) {
        if digits_value(f) <= u64::MAX {
            Some(digits_value(f) as nat)
        } else {
            Some(u64::MAX as nat)
        }
    } else {
        None
    }
}

/// The used megabytes that the free report `s` gives, 0 where it gives none.
pub open spec fn used_mb(s: Seq<char>) -> nat {
    match mem_line_from(s, 0) {
        None => 0,
        Some(i) => match nth_field(line_at(s, i), 2) {
            None => 0,
            Some(f) => match parse_count(f) {
                Some(n) => n,
                None => 0,
            },
        },
    }
}

/// `mb` megabytes in tenths of a gigabyte, rounded to the nearest, ties to even.
pub open spec fn tenths_of_gb(mb: nat) -> nat {
    let q = mb * 10 / 1024;
    let r = mb * 10 % 1024;
    if r > 512 || (r == 512 && q % 2 == 1) {
        q + 1
    } else {
        q
    }
}

/// `mb` megabytes as gigabytes with one decimal, followed by `G`.
pub open spec fn gb_label(mb: nat) -> Seq<char> {
    let t = tenths_of_gb(mb);
    decimal(t / 10) + seq!['.'] + decimal(t % 10) + seq!['G']
}

/// The memory figure reported for the free report `s`.
pub open spec fn mem_usage_text(s: Seq<char>) -> Seq<char> {
    gb_label(used_mb(s))
}

/// Reads `f` as a count in decimal digits after an optional plus sign.
pub fn parse_count_of(f: &Vec<char>) -> (r: Option<u64>)
    ensures
        match r {
            Some(n) => parse_count(f@) == Some(n as nat),
            None => parse_count(f@) is None,
        },
{
    if f.len() > 0 && f[0] == '+' {
        let g = slice_vec(f, 1, f.len());
        assert(g@ =~= unsigned_part(f@));
        count_of(&g)
    } else {
        count_of(f)
    }
}

/// Reads `f` as a count in decimal digits.
fn count_of(f: &Vec<char>) -> (r: Option<u64>)
    ensures
        match r {
            Some(n) => count_value(f@) == Some(n as nat),
            None => count_value(f@) is None,
        },
{
    let len = f.len();
    if len == 0 {
        return None;
    }
    let mut acc: u64 = 0;
    let mut i: usize = 0;
    while i < len
        invariant
            len == f@.len(),
            i <= len,
            all_digits(f@.take(i as int)),
            0 <= digits_value(f@.take(i as int)),
            acc as int == if digits_value(f@.take(i as int)) < u64::MAX {
                digits_value(f@.take(i as int))
            } else {
                u64::MAX as int
            },
        decreases len - i,
    {
        let c = f[i];
        if !('0' <= c && c <= '9') {
            return None;
        }
        let d = (c as u32 - '0' as u32) as u64;
        assert(f@.take(i + 1).drop_last() =~= f@.take(i as int));
        assert(all_digits(f@.take(i + 1)));
        if acc == u64::MAX {
        } else if acc > (u64::MAX - d) / 10 {
            assert(acc * 10 + d > u64::MAX) by (nonlinear_arith)
                requires
                    acc > (u64::MAX - d) / 10,
                    d <= 9,
            ;
            acc = u64::MAX;
        } else {
            assert(acc * 10 + d <= u64::MAX) by (nonlinear_arith)
                requires
                    acc <= (u64::MAX - d) / 10,
                    d <= 9,
            ;
            acc = acc * 10 + d;
        }
        i = i + 1;
    }
    assert(f@.take(len as int) =~= f@);
    Some(acc)
}

/// Bounds of the `n`-th whitespace-separated field of `v`, counting from 0.
pub fn field_range(v: &Vec<char>, n: usize) -> (r: Option<(usize, usize)>)
    ensures
        match r {
            Some((x, y)) => x <= y <= v@.len() && nth_field(v@, n as nat) == Some(
                v@.subrange(x as int, y as int),
            ),
            None => nth_field(v@, n as nat) is None,
        },
{
    let len = v.len();
    let mut i: usize = 0;
    let mut left: usize = n;
    let mut in_word = false;
    assert(v@.skip(0) =~= v@);
    while i < len
        invariant
            len == v@.len(),
            i <= len,
            nth_field(v@, n as nat) == field_from(v@.skip(i as int), left as nat, in_word),
        decreases len - i,
    {
        let c = v[i];
        assert(v@.skip(i as int).drop_first() =~= v@.skip(i + 1));
        if is_whitespace(c) {
            in_word = false;
        } else if in_word {
        } else if left == 0 {
            let mut j: usize = i;
            while j < len && !is_whitespace(v[j])
                invariant
                    len == v@.len(),
                    i <= j <= len,
                    word_len(v@.skip(i as int)) == (j - i) + word_len(v@.skip(j as int)),
                decreases len - j,
            {
                assert(v@.skip(j as int).drop_first() =~= v@.skip(j + 1));
                j = j + 1;
            }
            assert(v@.skip(i as int).take(word_len(v@.skip(i as int)) as int) =~= v@.subrange(
                i as int,
                j as int,
            ));
            return Some((i, j));
        } else {
            left = left - 1;
            in_word = true;
        }
        i = i + 1;
    }
    None
}

/// The first position that begins a line opening with `tag`.
fn find_mem_line(v: &Vec<char>, tag: &Vec<char>) -> (r: Option<usize>)
    requires
        tag@ == mem_tag(),
    ensures
        match r {
            Some(i) => mem_line_from(v@, 0) == Some(i as nat) && i + tag@.len() <= v@.len(),
            None => mem_line_from(v@, 0) is None,
        },
{
    let n = v.len();
    let m = tag.len();
    if n < m {
        return None;
    }
    let mut i: usize = 0;
    loop
        invariant
            i <= n - m,
            m <= n,
            n == v@.len(),
            m == tag@.len(),
            tag@ == mem_tag(),
            mem_line_from(v@, 0) == mem_line_from(v@, i as nat),
        decreases n - m - i,
    {
        if (i == 0 || v[i - 1] == '\n') && matches_at(v, tag, i) {
            return Some(i);
        }
        if i == n - m {
            assert(mem_line_from(v@, (i + 1) as nat) is None);
            return None;
        }
        i = i + 1;
    }
}

/// Used memory in gigabytes, one decimal and `G`, from the text of a free report in
/// megabytes.
pub fn get_mem_usage(free_out: &str) -> (r: String)
    ensures
        r@ == mem_usage_text(free_out@),
{
    let v = chars_of(free_out);
    let tag = chars_of("Mem:");
    let mut mb: u64 = 0;
    match find_mem_line(&v, &tag) {
        None => {},
        Some(i) => {
            let nl = vec!['\n'];
            assert(nl@ =~= seq!['\n']);
            let e = match find(&v, &nl, i) {
                Some(e) => e,
                None => v.len(),
            };
            let line = slice_vec(&v, i, e);
            assert(line@ == line_at(v@, i as nat));
            match field_range(&line, 2) {
                None => {},
                Some((x, y)) => {
                    let f = slice_vec(&line, x, y);
                    match parse_count_of(&f) {
                        Some(n) => {
                            mb = n;
                        },
                        None => {},
                    }
                },
            }
        },
    }
    assert(mb as nat == used_mb(free_out@));
    gb_text(mb)
}

/// `mb` megabytes as gigabytes with one decimal, followed by `G`.
pub fn gb_text(mb: u64) -> (r: String)
    ensures
        r@ == gb_label(mb as nat),
{
    let p: u128 = (mb as u128) * 10;
    let q: u128 = p / 1024;
    let rem: u128 = p % 1024;
    let t: u128 = if rem > 512 || (rem == 512 && q % 2 == 1) {
        q + 1
    } else {
        q
    };
    assert(t <= u64::MAX as u128 * 10) by (nonlinear_arith)
        requires
            p == mb * 10,
            q == p / 1024,
            t <= q + 1,
            mb <= u64::MAX,
    ;
    let mut out = String::new();
    push_decimal(&mut out, (t / 10) as u64);
    proof {
        reveal_strlit(".");
        reveal_strlit("G");
    }
    out.append(".");
    push_decimal(&mut out, (t % 10) as u64);
    out.append("G");
    assert(out@ =~= gb_label(mb as nat));
    out
}

/// The name prefix of a thermal-zone directory.
pub open spec fn zone_prefix() -> Seq<char> {
    "thermal_zone"@
}

/// The label given when no temperature can be read.
pub open spec fn no_temperature() -> Seq<char> {
    "N/A"@
}

/// The whole part of an unsigned decimal numeral: digits, then optionally a point and
/// more digits, with at least one digit in all.
pub open spec fn whole_part(b: Seq<char>) -> Option<int> {
    match find_from(b, seq!['.'], 0) {
        None => if b.len() > 0 && all_digits(b) {
            Some(digits_value(b))
        } else {
            None
        },
        Some(p) => {
            let w = b.take(p as int);
            let f = b.skip((p + 1) as int);
            if all_digits(w) && all_digits(f) && (w.len() > 0 || f.len() > 0) {
                Some(digits_value(w))
            } else {
                None
            }
        },
    }
}

/// The whole part, truncated toward zero, of a decimal numeral with an optional sign.
pub open spec fn parse_signed(t: Seq<char>) -> Option<int> {
    let body = if t.len() > 0 && (t[0] == '-' || t[0] == '+') {
        t.drop_first()
    } else {
        t
    };
    match whole_part(body) {
        Some(v) => if t.len() > 0 && t[0] == '-' {
            Some(-v)
        } else {
            Some(v)
        },
        None => None,
    }
}

/// `v` thousandths in whole units, truncated toward zero.
pub open spec fn trunc_thousandths(v: int) -> int {
    if v >= 0 {
        v / 1000
    } else {
        -((-v) / 1000)
    }
}

/// `x` held to the range of `i32`.
pub open spec fn clamp_i32(x: int) -> int {
    if x > i32::MAX {
        i32::MAX as int
    } else if x < i32::MIN {
        i32::MIN as int
    } else {
        x
    }
}

/// Whole degrees Celsius from a reading in millidegrees, where it holds a number.
pub open spec fn celsius_of(text: Seq<char>) -> Option<int> {
    match parse_signed(trim_ws(text)) {
        Some(v) => Some(clamp_i32(trunc_thousandths(v))),
        None => None,
    }
}

/// `x` in decimal, with a minus sign when negative.
pub open spec fn signed_decimal(x: int) -> Seq<char> {
    if x < 0 {
        seq!['-'] + decimal((-x) as nat)
    } else {
        decimal(x as nat)
    }
}

/// A temperature label: the degrees followed by the degree sign and `C`.
pub open spec fn degrees_label(c: int) -> Seq<char> {
    signed_decimal(c) + seq!['\u{b0}', 'C']
}

/// One entry of the thermal directory: its name, and what its temperature file held
/// where it could be read.
pub struct ZoneReading {
    pub name: String,
    pub temp: Option<String>,
}

/// Degrees from a directory entry that names a thermal zone and holds a number.
pub open spec fn zone_celsius(z: ZoneReading) -> Option<int> {
    if starts_with(z.name@, zone_prefix()) {
        match opt_view(z.temp) {
            Some(t) => celsius_of(t),
            None => None,
        }
    } else {
        None
    }
}

/// The degrees of the first entry at or after `i` that gives any.
pub open spec fn first_zone_celsius(zs: Seq<ZoneReading>, i: nat) -> Option<int>
    decreases zs.len() - i,
{
    if i >= zs.len() {
        None
    } else {
        match zone_celsius(zs[i as int]) {
            Some(c) => Some(c),
            None => first_zone_celsius(zs, i + 1),
        }
    }
}

/// The degrees reported: from the primary reading where it holds a number, else from
/// the first thermal zone that gives any.
pub open spec fn chosen_celsius(primary: Option<Seq<char>>, zs: Seq<ZoneReading>) -> Option<
    int,
> {
    match primary {
        Some(t) => match celsius_of(t) {
            Some(c) => Some(c),
            None => first_zone_celsius(zs, 0),
        },
        None => first_zone_celsius(zs, 0),
    }
}

/// The temperature figure reported.
pub open spec fn cpu_temp_text(primary: Option<Seq<char>>, zs: Seq<ZoneReading>) -> Seq<char> {
    match chosen_celsius(primary, zs) {
        Some(c) => degrees_label(c),
        None => no_temperature(),
    }
}

/// The report line: load, memory and temperature joined by commas.
pub open spec fn top_line(
    uptime: Seq<char>,
    free: Seq<char>,
    primary: Option<Seq<char>>,
    zs: Seq<ZoneReading>,
) -> Seq<char> {
    cpu_load_text(uptime) + seq![','] + mem_usage_text(free) + seq![','] + cpu_temp_text(
        primary,
        zs,
    )
}

/// Whether a thermal directory entry named `name` is a thermal zone.
pub fn is_thermal_zone_name(name: &str) -> (r: bool)
    ensures
        r == starts_with(name@, zone_prefix()),
{
    let v = chars_of(name);
    let p = chars_of("thermal_zone");
    has_prefix(&v, &p)
}

/// Whether every character of `v` is an ASCII digit.
fn all_digits_of(v: &Vec<char>) -> (r: bool)
    ensures
        r == all_digits(v@),
{
    let mut i: usize = 0;
    while i < v.len()
        invariant
            i <= v@.len(),
            all_digits(v@.take(i as int)),
        decreases v@.len() - i,
    {
        let c = v[i];
        if !('0' <= c && c <= '9') {
            assert(!('0' <= v@[i as int] && v@[i as int] <= '9'));
            return false;
        }
        assert(all_digits(v@.take(i + 1))) by {
            assert forall|k: int| 0 <= k < i + 1 implies '0' <= #[trigger] v@.take(i + 1)[k] <= '9' by {
                if k < i {
                    assert(v@.take(i + 1)[k] == v@.take(i as int)[k]);
                }
            }
        }
        i = i + 1;
    }
    assert(v@.take(v@.len() as int) =~= v@);
    true
}

/// The whole part of `b`, an unsigned decimal numeral with an optional fraction, held
/// below `10^13`.
fn whole_part_capped(b: &Vec<char>) -> (r: Option<u64>)
    ensures
        match r {
            Some(n) => whole_part(b@) matches Some(v) && v >= 0 && n as int == if v
                < 10_000_000_000_000 {
                v
            } else {
                10_000_000_000_000
            },
            None => whole_part(b@) is None,
        },
{
    let point = vec!['.'];
    assert(point@ =~= seq!['.']);
    let w = match find(b, &point, 0) {
        None => {
            if b.len() == 0 || !all_digits_of(b) {
                return None;
            }
            let w = slice_vec(b, 0, b.len());
            assert(w@ =~= b@);
            w
        },
        Some(p) => {
            let n = b.len();
            assert(p + 1 <= n);
            let w = slice_vec(b, 0, p);
            let f = slice_vec(b, p + 1, b.len());
            assert(w@ =~= b@.take(p as int));
            assert(f@ =~= b@.skip(p + 1));
            if !all_digits_of(&w) || !all_digits_of(&f) || (w.len() == 0 && f.len() == 0) {
                return None;
            }
            w
        },
    };
    assert(whole_part(b@) == Some(digits_value(w@)));
    let cap: u64 = 10_000_000_000_000;
    let mut acc: u64 = 0;
    let mut i: usize = 0;
    while i < w.len()
        invariant
            i <= w@.len(),
            all_digits(w@),
            all_digits(w@.take(i as int)),
            0 <= digits_value(w@.take(i as int)),
            acc <= cap,
            cap == 10_000_000_000_000,
            acc as int == if digits_value(w@.take(i as int)) < cap {
                digits_value(w@.take(i as int))
            } else {
                cap as int
            },
        decreases w@.len() - i,
    {
        let c = w[i];
        assert('0' <= w@[i as int] <= '9');
        let k = (c as u32 - '0' as u32) as u64;
        assert(w@.take(i + 1).drop_last() =~= w@.take(i as int));
        assert(all_digits(w@.take(i + 1)));
        if acc < cap {
            acc = acc * 10 + k;
            if acc > cap {
                acc = cap;
            }
        }
        i = i + 1;
    }
    assert(w@.take(w@.len() as int) =~= w@);
    Some(acc)
}

/// Whole degrees Celsius from a reading in millidegrees.
pub fn celsius_of_text(text: &str) -> (r: Option<i32>)
    ensures
        match r {
            Some(c) => celsius_of(text@) == Some(c as int),
            None => celsius_of(text@) is None,
        },
{
    let v = chars_of(text);
    let (x, y) = trim_range(&v, 0, v.len());
    assert(v@.subrange(0, v@.len() as int) =~= v@);
    let t = slice_vec(&v, x, y);
    assert(t@ == trim_ws(text@));
    let signed_text = t.len() > 0 && (t[0] == '-' || t[0] == '+');
    let neg = t.len() > 0 && t[0] == '-';
    let start: usize = if signed_text {
        1
    } else {
        0
    };
    let b = slice_vec(&t, start, t.len());
    assert(signed_text ==> b@ =~= t@.drop_first());
    assert(!signed_text ==> b@ =~= t@);
    let acc = match whole_part_capped(&b) {
        Some(acc) => acc,
        None => {
            return None;
        },
    };
    let whole: i64 = (acc / 1000) as i64;
    let signed: i64 = if neg {
        -whole
    } else {
        whole
    };
    proof {
        let val = whole_part(b@)->0;
        if val >= 10_000_000_000_000 {
            assert(val / 1000 >= 10_000_000_000) by (nonlinear_arith)
                requires
                    val >= 10_000_000_000_000,
            ;
        }
    }
    let c: i32 = if signed > i32::MAX as i64 {
        i32::MAX
    } else if signed < i32::MIN as i64 {
        i32::MIN
    } else {
        signed as i32
    };
    Some(c)
}

/// A temperature label for `c` degrees Celsius.
pub fn degrees_text(c: i32) -> (r: String)
    ensures
        r@ == degrees_label(c as int),
{
    let mut out = String::new();
    proof {
        reveal_strlit("-");
        reveal_strlit("\u{b0}C");
    }
    if c < 0 {
        out.append("-");
        push_decimal(&mut out, (-(c as i64)) as u64);
    } else {
        push_decimal(&mut out, c as u64);
    }
    out.append("\u{b0}C");
    assert(out@ =~= degrees_label(c as int));
    out
}

/// The degrees of the first thermal-zone entry that gives any.
fn first_zone(zones: &Vec<ZoneReading>) -> (r: Option<i32>)
    ensures
        match r {
            Some(c) => first_zone_celsius(zones@, 0) == Some(c as int),
            None => first_zone_celsius(zones@, 0) is None,
        },
{
    let mut i: usize = 0;
    while i < zones.len()
        invariant
            i <= zones@.len(),
            first_zone_celsius(zones@, 0) == first_zone_celsius(zones@, i as nat),
        decreases zones@.len() - i,
    {
        let z = &zones[i];
        if is_thermal_zone_name(z.name.as_str()) {
            match &z.temp {
                Some(t) => match celsius_of_text(t.as_str()) {
                    Some(c) => {
                        return Some(c);
                    },
                    None => {},
                },
                None => {},
            }
        }
        i = i + 1;
    }
    None
}

/// The temperature figure: the primary reading where it holds a number, else the first
/// thermal-zone entry that does; `N/A` where none does.
pub fn get_cpu_temp(primary: &Option<String>, zones: &Vec<ZoneReading>) -> (r: String)
    ensures
        r@ == cpu_temp_text(opt_view(*primary), zones@),
{
    let c = match primary {
        Some(t) => match celsius_of_text(t.as_str()) {
            Some(c) => Some(c),
            None => first_zone(zones),
        },
        None => first_zone(zones),
    };
    match c {
        Some(c) => degrees_text(c),
        None => {
            proof {
                reveal_strlit("N/A");
            }
            String::from_str("N/A")
        },
    }
}

/// The report line: load from the uptime report, memory from the free report and the
/// temperature from the thermal readings, joined by commas.
pub fn get_top(
    uptime_out: &str,
    free_out: &str,
    primary: &Option<String>,
    zones: &Vec<ZoneReading>,
) -> (r: String)
    ensures
        r@ == top_line(uptime_out@, free_out@, opt_view(*primary), zones@),
{
    let cpu = get_cpu_load(uptime_out);
    let mem = get_mem_usage(free_out);
    let temp = get_cpu_temp(primary, zones);
    proof {
        reveal_strlit(",");
    }
    let mut out = cpu;
    out.append(",");
    out.append(mem.as_str());
    out.append(",");
    out.append(temp.as_str());
    assert(out@ =~= top_line(uptime_out@, free_out@, opt_view(*primary), zones@));
    out
}

proof fn lemma_no_zone_reading(zs: Seq<ZoneReading>, i: nat)
    requires
        forall|j: int|
            i <= j < zs.len() ==> match opt_view((#[trigger] zs[j]).temp) {
                Some(t) => celsius_of(t) is None,
                None => true,
            },
    ensures
        first_zone_celsius(zs, i) is None,
    decreases zs.len() - i,
{
    if i < zs.len() {
        lemma_no_zone_reading(zs, i + 1);
    }
}

/// Where neither the primary reading nor any thermal zone reading holds a number, the
/// temperature figure is `N/A`.
pub proof fn lemma_no_reading_gives_na(primary: Option<Seq<char>>, zs: Seq<ZoneReading>)
    requires
        primary matches Some(t) ==> celsius_of(t) is None,
        forall|j: int|
            0 <= j < zs.len() ==> match opt_view((#[trigger] zs[j]).temp) {
                Some(t) => celsius_of(t) is None,
                None => true,
            },
    ensures
        cpu_temp_text(primary, zs) == "N/A"@,
{
    lemma_no_zone_reading(zs, 0);
}

proof fn lemma_zone_reported_at(zs: Seq<ZoneReading>, i: nat, x: nat)
    requires
        i <= x < zs.len(),
        zone_celsius(zs[x as int]) is Some,
        forall|j: int| i <= j < x ==> zone_celsius(#[trigger] zs[j]) is None,
    ensures
        first_zone_celsius(zs, i) == zone_celsius(zs[x as int]),
    decreases x - i,
{
    if i < x {
        lemma_zone_reported_at(zs, i + 1, x);
    }
}

/// Where the primary reading holds no number or could not be read, the degrees come
/// from the first thermal-zone entry, in listing order, whose reading holds a number.
pub proof fn lemma_first_parsed_zone_is_reported(
    primary: Option<Seq<char>>,
    zs: Seq<ZoneReading>,
    x: int,
)
    requires
        primary matches Some(t) ==> celsius_of(t) is None,
        0 <= x < zs.len(),
        zone_celsius(zs[x]) is Some,
        forall|j: int| 0 <= j < x ==> zone_celsius(#[trigger] zs[j]) is None,
    ensures
        cpu_temp_text(primary, zs) == degrees_label(zone_celsius(zs[x])->0),
{
    lemma_zone_reported_at(zs, 0, x as nat);
}

proof fn lemma_no_mem_line(s: Seq<char>, i: nat)
    requires
        forall|p: int| i <= p ==> !(line_start(s, p) && #[trigger] occurs_at(s, mem_tag(), p)),
    ensures
        mem_line_from(s, i) is None,
    decreases s.len() + 1 - i,
{
    if i + mem_tag().len() <= s.len() {
        lemma_no_mem_line(s, i + 1);
    }
}

/// Where the free report has no line that opens with `Mem:` and no temperature source
/// could be read, the report line is the load, then `0.0G`, then `N/A`.
pub proof fn lemma_top_without_sources(uptime: Seq<char>, free: Seq<char>, zs: Seq<ZoneReading>)
    requires
        forall|p: int| !(line_start(free, p) && #[trigger] occurs_at(free, mem_tag(), p)),
        forall|j: int| 0 <= j < zs.len() ==> (#[trigger] zs[j]).temp is None,
    ensures
        top_line(uptime, free, None, zs) == cpu_load_text(uptime) + ",0.0G,N/A"@,
{
    lemma_no_mem_line(free, 0);
    assert(used_mb(free) == 0);
    assert(decimal(0) == seq!['0']);
    lemma_no_reading_gives_na(None, zs);
    reveal_strlit(",0.0G,N/A");
    reveal_strlit("N/A");
    assert(top_line(uptime, free, None, zs) =~= cpu_load_text(uptime) + ",0.0G,N/A"@);
}

} // verus!
