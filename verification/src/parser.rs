//! Pure line parser for the game's client log.
//!
//! Every recognized line starts with a literal `YYYY/MM/DD HH:MM:SS`
//! timestamp, followed by engine-internal fields, then a literal marker and
//! the payload. Patterns are tried in a fixed priority order — zone enter,
//! level up, death, instance details, login — and the first match wins.
//! Lines matching no pattern yield no event.
//!
//! The grammar is anchored deterministically: the zone-enter marker is the
//! last occurrence of its full text in the line, and the payload of the
//! level-up and death patterns starts after the last `"] "` of the line
//! (the engine prefix may itself contain brackets). The zone name runs from
//! the marker to the last period of the line, that period excluded. A
//! level-up whose level field is missing or does not fit in 32 bits parses
//! with level 1 rather than failing.

use vstd::prelude::*;
use vstd::string::StrSliceExecFns;
use crate::text::collect_chars;
use crate::events::{LogEvent, LogEventV, opt_event_view};

verus! {

pub open spec fn is_digit(c: char) -> bool {
    '0' <= c && c <= '9'
}

/// What character class position `i` of the timestamp prefix must hold.
pub open spec fn ts_char_ok(c: char, i: int) -> bool {
    if i == 4 || i == 7 {
        c == '/'
    } else if i == 10 {
        c == ' '
    } else if i == 13 || i == 16 {
        c == ':'
    } else {
        is_digit(c)
    }
}

/// The line starts with `YYYY/MM/DD HH:MM:SS`.
pub open spec fn has_timestamp(s: Seq<char>) -> bool {
    &&& s.len() >= 19
    &&& forall|i: int| 0 <= i < 19 ==> ts_char_ok(#[trigger] s[i], i)
}

/// The timestamp text of a line (its first 19 characters).
pub open spec fn ts_of(s: Seq<char>) -> Seq<char> {
    s.subrange(0, 19)
}

/// Pattern `m` occurs in `s` starting at index `i`.
pub open spec fn found_at(s: Seq<char>, m: Seq<char>, i: int) -> bool {
    &&& 0 <= i
    &&& i + m.len() <= s.len()
    &&& forall|j: int| 0 <= j < m.len() ==> #[trigger] m[j] == s[i + j]
}

/// Index of the last occurrence of `m` at or before position `i`.
pub open spec fn spec_find_last_from(s: Seq<char>, m: Seq<char>, i: int) -> Option<int>
    decreases i + 1,
{
    if i < 0 {
        None
    } else if found_at(s, m, i) {
        Some(i)
    } else {
        spec_find_last_from(s, m, i - 1)
    }
}

/// Index of the last occurrence of `m` in `s`.
pub open spec fn spec_find_last(s: Seq<char>, m: Seq<char>) -> Option<int> {
    spec_find_last_from(s, m, s.len() - m.len())
}

/// Index of the first occurrence of a nonempty pattern `m` at or after
/// position `i`.
pub open spec fn spec_find_first_from(s: Seq<char>, m: Seq<char>, i: int) -> Option<int>
    decreases s.len() - i,
{
    if m.len() == 0 || i < 0 || i + m.len() > s.len() {
        None
    } else if found_at(s, m, i) {
        Some(i)
    } else {
        spec_find_first_from(s, m, i + 1)
    }
}

pub open spec fn zone_marker() -> Seq<char> {
    "] You have entered "@
}

pub open spec fn bracket_marker() -> Seq<char> {
    "] "@
}

pub open spec fn name_open_marker() -> Seq<char> {
    " ("@
}

pub open spec fn level_close_marker() -> Seq<char> {
    ") is now level "@
}

pub open spec fn death_marker() -> Seq<char> {
    " has been slain."@
}

pub open spec fn instance_marker() -> Seq<char> {
    "] Got Instance Details"@
}

pub open spec fn login_marker() -> Seq<char> {
    "] Connecting to instance server"@
}

/// Zone-enter pattern: a timestamp, the zone marker, at least one character
/// of zone name, and a later period.
pub open spec fn zone_match(s: Seq<char>) -> bool {
    &&& has_timestamp(s)
    &&& spec_find_last(s, zone_marker()) is Some
    &&& spec_find_last(s, seq!['.']) is Some
    &&& spec_find_last(s, seq!['.'])->0 > spec_find_last(s, zone_marker())->0
        + zone_marker().len()
}

/// The zone name: everything between the zone marker and the last period of
/// the line, that period excluded.
pub open spec fn zone_name_of(s: Seq<char>) -> Seq<char> {
    s.subrange(
        spec_find_last(s, zone_marker())->0 + zone_marker().len(),
        spec_find_last(s, seq!['.'])->0,
    )
}

/// Start of the message payload: just after the last `"] "` of the line.
pub open spec fn payload_start(s: Seq<char>) -> int {
    spec_find_last(s, bracket_marker())->0 + bracket_marker().len()
}

/// Index of the `" ("` that closes the character name (first occurrence
/// leaving a nonempty name).
pub open spec fn level_name_open(s: Seq<char>) -> Option<int> {
    spec_find_first_from(s, name_open_marker(), payload_start(s) + 1)
}

/// Index of the `") is now level "` that closes the class name (first
/// occurrence leaving a nonempty class).
pub open spec fn level_class_close(s: Seq<char>) -> Option<int> {
    match level_name_open(s) {
        Some(k) => spec_find_first_from(s, level_close_marker(), k + 3),
        None => None,
    }
}

/// Level-up pattern: `<name> (<class>) is now level <n>` after the payload
/// marker, with nonempty name and class.
pub open spec fn level_match(s: Seq<char>) -> bool {
    &&& has_timestamp(s)
    &&& spec_find_last(s, bracket_marker()) is Some
    &&& level_name_open(s) is Some
    &&& level_class_close(s) is Some
}

pub open spec fn level_name_of(s: Seq<char>) -> Seq<char> {
    s.subrange(payload_start(s), level_name_open(s)->0)
}

pub open spec fn level_class_of(s: Seq<char>) -> Seq<char> {
    s.subrange(level_name_open(s)->0 + 2, level_class_close(s)->0)
}

/// End of the run of decimal digits starting at `i`.
pub open spec fn digit_run_end(s: Seq<char>, i: int) -> int
    decreases s.len() - i,
{
    if 0 <= i < s.len() && is_digit(s[i]) {
        digit_run_end(s, i + 1)
    } else {
        i
    }
}

/// The digit run that forms the level field.
pub open spec fn level_digits_of(s: Seq<char>) -> Seq<char> {
    let d0 = level_class_close(s)->0 + level_close_marker().len();
    s.subrange(d0, digit_run_end(s, d0))
}

/// Value of a digit string, most significant digit first.
pub open spec fn digits_val(ds: Seq<char>) -> int
    decreases ds.len(),
{
    if ds.len() == 0 {
        0
    } else {
        digits_val(ds.drop_last()) * 10 + (ds.last() as int - '0' as int)
    }
}

/// The parsed level: the digit run's value, or 1 when the field is missing
/// or does not fit in 32 bits.
pub open spec fn level_of(s: Seq<char>) -> u32 {
    let ds = level_digits_of(s);
    if ds.len() >= 1 && 0 <= digits_val(ds) <= u32::MAX {
        digits_val(ds) as u32
    } else {
        1u32
    }
}

/// Death pattern: `<name> has been slain.` after the payload marker, with a
/// nonempty name.
pub open spec fn death_slain_at(s: Seq<char>) -> Option<int> {
    spec_find_first_from(s, death_marker(), payload_start(s) + 1)
}

pub open spec fn death_match(s: Seq<char>) -> bool {
    &&& has_timestamp(s)
    &&& spec_find_last(s, bracket_marker()) is Some
    &&& death_slain_at(s) is Some
}

pub open spec fn death_name_of(s: Seq<char>) -> Seq<char> {
    s.subrange(payload_start(s), death_slain_at(s)->0)
}

pub open spec fn instance_match(s: Seq<char>) -> bool {
    &&& has_timestamp(s)
    &&& spec_find_last(s, instance_marker()) is Some
}

pub open spec fn login_match(s: Seq<char>) -> bool {
    &&& has_timestamp(s)
    &&& spec_find_last(s, login_marker()) is Some
}

/// What `parse_line` returns for a line: the patterns in priority order,
/// first match wins, no match yields nothing.
pub open spec fn spec_parse(s: Seq<char>) -> Option<LogEventV> {
    if zone_match(s) {
        Some(LogEventV::ZoneEnter { timestamp: ts_of(s), zone_name: zone_name_of(s) })
    } else if level_match(s) {
        Some(
            LogEventV::LevelUp {
                timestamp: ts_of(s),
                character_name: level_name_of(s),
                character_class: level_class_of(s),
                level: level_of(s),
            },
        )
    } else if death_match(s) {
        Some(LogEventV::Death { timestamp: ts_of(s), character_name: death_name_of(s) })
    } else if instance_match(s) {
        Some(LogEventV::InstanceDetails { timestamp: ts_of(s) })
    } else if login_match(s) {
        Some(LogEventV::Login { timestamp: ts_of(s) })
    } else {
        None
    }
}

/// Does `pat` occur in `hay` at position `i`?
fn match_at(hay: &Vec<char>, pat: &Vec<char>, i: usize) -> (r: bool)
    requires
        i + pat@.len() <= hay@.len(),
    ensures
        r == found_at(hay@, pat@, i as int),
{
    let hn = hay.len();
    let m = pat.len();
    let mut j: usize = 0;
    while j < m
        invariant
            m == pat@.len(),
            hn == hay@.len(),
            i + m <= hn,
            0 <= j <= m,
            forall|q: int| 0 <= q < j ==> #[trigger] pat@[q] == hay@[i + q],
        decreases m - j,
    {
        if pat[j] != hay[i + j] {
            return false;
        }
        j = j + 1;
    }
    true
}

/// Index of the last occurrence of `pat` in `hay`.
fn find_last(hay: &Vec<char>, pat: &Vec<char>) -> (r: Option<usize>)
    ensures
        (match r {
            Some(i) => spec_find_last(hay@, pat@) == Some(i as int) && found_at(
                hay@,
                pat@,
                i as int,
            ),
            None => spec_find_last(hay@, pat@) is None,
        }),
{
    if pat.len() > hay.len() {
        proof {
            assert(spec_find_last_from(hay@, pat@, hay@.len() - pat@.len()) is None);
        }
        return None;
    }
    let mut i: usize = hay.len() - pat.len();
    loop
        invariant
            pat@.len() <= hay@.len(),
            i + pat@.len() <= hay@.len(),
            spec_find_last(hay@, pat@) == spec_find_last_from(hay@, pat@, i as int),
        decreases i,
    {
        if match_at(hay, pat, i) {
            return Some(i);
        }
        if i == 0 {
            proof {
                assert(spec_find_last_from(hay@, pat@, 0) == spec_find_last_from(
                    hay@,
                    pat@,
                    -1,
                ));
            }
            return None;
        }
        i = i - 1;
    }
}

/// Index of the first occurrence of a nonempty `pat` in `hay` strictly
/// after position `after`.
fn find_first_after(hay: &Vec<char>, pat: &Vec<char>, after: usize) -> (r: Option<usize>)
    requires
        pat@.len() >= 1,
    ensures
        (match r {
            Some(i) => spec_find_first_from(hay@, pat@, after + 1) == Some(i as int) && found_at(
                hay@,
                pat@,
                i as int,
            ) && i > after,
            None => spec_find_first_from(hay@, pat@, after + 1) is None,
        }),
{
    if pat.len() > hay.len() {
        return None;
    }
    let limit = hay.len() - pat.len();
    let mut i: usize = after;
    loop
        invariant
            pat@.len() >= 1,
            pat@.len() <= hay@.len(),
            limit == hay@.len() - pat@.len(),
            i >= after,
            spec_find_first_from(hay@, pat@, after + 1) == spec_find_first_from(
                hay@,
                pat@,
                i + 1,
            ),
        decreases hay@.len() - i,
    {
        if i >= limit {
            return None;
        }
        let pos = i + 1;
        if match_at(hay, pat, pos) {
            return Some(pos);
        }
        i = pos;
    }
}

/// Does the line start with the timestamp prefix?
fn check_timestamp(chars: &Vec<char>) -> (r: bool)
    ensures
        r == has_timestamp(chars@),
{
    if chars.len() < 19 {
        return false;
    }
    let mut i: usize = 0;
    while i < 19
        invariant
            chars@.len() >= 19,
            0 <= i <= 19,
            forall|q: int| 0 <= q < i ==> ts_char_ok(#[trigger] chars@[q], q),
        decreases 19 - i,
    {
        let c = chars[i];
        let ok = if i == 4 || i == 7 {
            c == '/'
        } else if i == 10 {
            c == ' '
        } else if i == 13 || i == 16 {
            c == ':'
        } else {
            '0' <= c && c <= '9'
        };
        if !ok {
            return false;
        }
        i = i + 1;
    }
    true
}

/// Copy of the character range `[from, to)` of `line`.
fn substr(line: &str, from: usize, to: usize) -> (r: String)
    requires
        from <= to <= line@.len(),
    ensures
        r@ == line@.subrange(from as int, to as int),
{
    line.substring_char(from, to).to_owned()
}

/// The value of the digit run `[d0, end)` of `chars`, saturated just past
/// `u32::MAX`.
fn digit_run_value(chars: &Vec<char>, d0: usize, end: usize) -> (val: u64)
    requires
        d0 <= end <= chars@.len(),
        forall|q: int| d0 <= q < end ==> is_digit(#[trigger] chars@[q]),
    ensures
        ({
            let dv = digits_val(chars@.subrange(d0 as int, end as int));
            &&& dv > u32::MAX ==> val > u32::MAX
            &&& dv <= u32::MAX ==> val == dv
        }),
{
    let cap: u64 = 0x1_0000_0000;
    let mut val: u64 = 0;
    let mut k: usize = d0;
    while k < end
        invariant
            d0 <= k <= end <= chars@.len(),
            forall|q: int| d0 <= q < end ==> is_digit(#[trigger] chars@[q]),
            cap == 0x1_0000_0000,
            ({
                let dv = digits_val(chars@.subrange(d0 as int, k as int));
                if dv >= cap {
                    val == cap
                } else {
                    val == dv
                }
            }),
        decreases end - k,
    {
        let c = chars[k];
        let d: u64 = (c as u64) - ('0' as u64);
        proof {
            let prev = chars@.subrange(d0 as int, k as int);
            let cur = chars@.subrange(d0 as int, k + 1);
            assert(cur.drop_last() =~= prev);
            assert(cur.last() == chars@[k as int]);
            assert(digits_val(cur) == digits_val(prev) * 10 + d);
            if digits_val(prev) >= cap {
                assert(digits_val(prev) * 10 >= digits_val(prev)) by (nonlinear_arith)
                    requires
                        digits_val(prev) >= 0,
                ;
            }
        }
        if val >= cap {
            // value already past the cap; further digits keep it past
        } else {
            let v10 = val * 10 + d;
            val = if v10 >= cap {
                cap
            } else {
                v10
            };
        }
        k = k + 1;
    }
    val
}

/// Parse one log line into its event, if it matches any pattern.
///
/// The zone-enter law: a line matching the zone-enter pattern yields
/// `ZoneEnter` whose zone name is the text between the marker and the last
/// period. The level-default law: a line matching the level-up pattern
/// whose level field has no digits yields level 1.
pub fn parse_line(line: &str) -> (r: Option<LogEvent>)
    ensures
        opt_event_view(r) == spec_parse(line@),
        zone_match(line@) ==> opt_event_view(r) == Some(
            LogEventV::ZoneEnter { timestamp: ts_of(line@), zone_name: zone_name_of(line@) },
        ),
        !zone_match(line@) && level_match(line@) && level_digits_of(line@).len() == 0
            ==> opt_event_view(r) == Some(
            LogEventV::LevelUp {
                timestamp: ts_of(line@),
                character_name: level_name_of(line@),
                character_class: level_class_of(line@),
                level: 1u32,
            },
        ),
{
    let chars = collect_chars(line);
    if !check_timestamp(&chars) {
        return None;
    }
    // zone enter
    let zm = collect_chars("] You have entered ");
    let mut dotv: Vec<char> = Vec::new();
    dotv.push('.');
    proof {
        assert(dotv@ =~= seq!['.']);
    }
    if let Some(i) = find_last(&chars, &zm) {
        if let Some(p) = find_last(&chars, &dotv) {
            if p > i + zm.len() {
                let timestamp = substr(line, 0, 19);
                let zone_name = substr(line, i + zm.len(), p);
                return Some(LogEvent::ZoneEnter { timestamp, zone_name });
            }
        }
    }
    // level up and death share the payload anchor
    let cn = chars.len();
    let bm = collect_chars("] ");
    if let Some(j) = find_last(&chars, &bm) {
        let pstart = j + bm.len();
        let om = collect_chars(" (");
        let cm = collect_chars(") is now level ");
        proof {
            reveal_strlit(" (");
            reveal_strlit(") is now level ");
            reveal_strlit(" has been slain.");
            assert(cn == chars@.len());
        }
        if let Some(k) = find_first_after(&chars, &om, pstart) {
            if let Some(m) = find_first_after(&chars, &cm, k + 2) {
                let d0 = m + cm.len();
                let mut e: usize = d0;
                while e < chars.len() && '0' <= chars[e] && chars[e] <= '9'
                    invariant
                        d0 <= e <= chars@.len(),
                        forall|q: int| d0 <= q < e ==> is_digit(#[trigger] chars@[q]),
                        digit_run_end(chars@, d0 as int) == digit_run_end(chars@, e as int),
                    decreases chars@.len() - e,
                {
                    e = e + 1;
                }
                proof {
                    assert(digit_run_end(chars@, e as int) == e);
                }
                let val = digit_run_value(&chars, d0, e);
                let level: u32 = if e > d0 && val <= u32::MAX as u64 {
                    val as u32
                } else {
                    1
                };
                let timestamp = substr(line, 0, 19);
                let character_name = substr(line, pstart, k);
                let character_class = substr(line, k + 2, m);
                return Some(
                    LogEvent::LevelUp { timestamp, character_name, character_class, level },
                );
            }
        }
        let dm = collect_chars(" has been slain.");
        if let Some(d) = find_first_after(&chars, &dm, pstart) {
            let timestamp = substr(line, 0, 19);
            let character_name = substr(line, pstart, d);
            return Some(LogEvent::Death { timestamp, character_name });
        }
    }
    // lifecycle signals
    let im = collect_chars("] Got Instance Details");
    if find_last(&chars, &im).is_some() {
        let timestamp = substr(line, 0, 19);
        return Some(LogEvent::InstanceDetails { timestamp });
    }
    let lm = collect_chars("] Connecting to instance server");
    if find_last(&chars, &lm).is_some() {
        let timestamp = substr(line, 0, 19);
        return Some(LogEvent::Login { timestamp });
    }
    None
}

} // verus!
