//! Per-client GPU engine time from the DRM `fdinfo` text the kernel publishes
//! under `/proc/<pid>/fdinfo/<fd>` for every descriptor of a render node.
//!
//! Each line is `key:\tvalue`. `drm-client-id` names the client; every
//! `drm-engine-<name>` line carries the cumulative busy time of one engine in
//! nanoseconds, written as "1693357467 ns". `drm-engine-capacity-<name>`
//! lines say how many engines of a kind exist and are not busy times.

use vstd::prelude::*;
use crate::text::{
    chars_of, find_char, first_index, first_word, first_word_range, lemma_first_index, lines,
    next_line, parse_u64, parse_unsigned_range, range_equals, range_starts_with, starts_with, trim,
    trim_range,
};

verus! {

/// The key and value of a line, split at its first `:` (`str::split_once`).
pub open spec fn split_key_value(line: Seq<char>) -> Option<(Seq<char>, Seq<char>)> {
    match first_index(line, ':') {
        Some(i) => Some((line.take(i), line.skip(i + 1))),
        None => None,
    }
}

/// Whether `key` names the busy time of an engine.
pub open spec fn is_engine_key(key: Seq<char>) -> bool {
    starts_with(key, "drm-engine-"@) && !starts_with(key, "drm-engine-capacity-"@)
}

/// What a `drm-client-id` line sets the client id to: the parsed value, or
/// `None` when the value is not a number. `None` outside for other lines.
pub open spec fn client_id_of_line(line: Seq<char>) -> Option<Option<u64>> {
    match split_key_value(line) {
        Some((key, value)) => if key == "drm-client-id"@ {
            Some(parse_u64(trim(value)))
        } else {
            None
        },
        None => None,
    }
}

/// The nanoseconds an engine line adds to the total: the number its value
/// begins with; nothing for other lines or values that are not numbers.
pub open spec fn engine_time_of_line(line: Seq<char>) -> nat {
    match split_key_value(line) {
        Some((key, value)) => if key != "drm-client-id"@ && is_engine_key(key) {
            match first_word(trim(value)) {
                Some(word) => match parse_u64(word) {
                    Some(n) => n as nat,
                    None => 0,
                },
                None => 0,
            }
        } else {
            0
        },
        None => 0,
    }
}

/// The client id the lines leave behind: that of the last `drm-client-id`
/// line, `None` where there is none.
pub open spec fn fdinfo_client(lines: Seq<Seq<char>>) -> Option<u64>
    decreases lines.len(),
{
    if lines.len() == 0 {
        None
    } else {
        match client_id_of_line(lines.last()) {
            Some(id) => id,
            None => fdinfo_client(lines.drop_last()),
        }
    }
}

/// The sum of the engine times of the lines.
pub open spec fn fdinfo_engine_total(lines: Seq<Seq<char>>) -> nat
    decreases lines.len(),
{
    if lines.len() == 0 {
        0
    } else {
        fdinfo_engine_total(lines.drop_last()) + engine_time_of_line(lines.last())
    }
}

/// A descriptor's client id and total engine time, `None` for descriptors
/// that are not DRM clients.
pub open spec fn parsed_fdinfo(info: Seq<char>) -> Option<(u64, u64)> {
    match fdinfo_client(lines(info)) {
        Some(id) => Some((id, fdinfo_engine_total(lines(info)) as u64)),
        None => None,
    }
}

/// Whether the total engine time of `info` fits in a `u64`.
pub open spec fn fdinfo_total_fits(info: Seq<char>) -> bool {
    fdinfo_engine_total(lines(info)) <= u64::MAX
}

proof fn lemma_total_append(a: Seq<Seq<char>>, b: Seq<Seq<char>>)
    ensures
        fdinfo_engine_total(a + b) == fdinfo_engine_total(a) + fdinfo_engine_total(b),
    decreases b.len(),
{
    if b.len() == 0 {
        assert(a + b =~= a);
    } else {
        assert((a + b).drop_last() =~= a + b.drop_last());
        lemma_total_append(a, b.drop_last());
    }
}

/// Walks the lines of `info` once: the client id they leave behind, and
/// their total engine time, or `None` for the total where it does not fit.
fn scan_fdinfo(info: &str) -> (r: (Option<u64>, Option<u64>))
    ensures
        r.0 == fdinfo_client(lines(info@)),
        match r.1 {
            Some(t) => fdinfo_total_fits(info@) && t == fdinfo_engine_total(lines(info@)),
            None => !fdinfo_total_fits(info@),
        },
{
    let v = chars_of(info);
    let n = v.len();
    let client_key = chars_of("drm-client-id");
    let engine_prefix = chars_of("drm-engine-");
    let capacity_prefix = chars_of("drm-engine-capacity-");
    let ghost all = lines(v@);
    let ghost mut done: Seq<Seq<char>> = seq![];
    assert(v@.subrange(0, n as int) =~= v@);
    assert(done + all =~= all);
    let mut client: Option<u64> = None;
    let mut total: Option<u64> = Some(0);
    let mut pos: usize = 0;
    while pos < n
        invariant
            pos <= n == v.len(),
            v@ == info@,
            all == lines(info@),
            client_key@ == "drm-client-id"@,
            engine_prefix@ == "drm-engine-"@,
            capacity_prefix@ == "drm-engine-capacity-"@,
            done + lines(v@.subrange(pos as int, n as int)) == all,
            client == fdinfo_client(done),
            match total {
                Some(t) => t == fdinfo_engine_total(done),
                None => fdinfo_engine_total(done) > u64::MAX,
            },
            fdinfo_engine_total(done) <= fdinfo_engine_total(all),
        decreases n - pos,
    {
        let (a, b, next) = next_line(&v, pos, n);
        let ghost line = v@.subrange(a as int, b as int);
        let ghost rest = lines(v@.subrange(next as int, n as int));
        let mut add: u64 = 0;
        proof {
            lemma_first_index(line, ':');
        }
        match find_char(&v, a, b, ':') {
            None => {},
            Some(colon) => {
                let (va, vb) = trim_range(&v, colon + 1, b);
                proof {
                    let i = (colon - a) as int;
                    assert(line.take(i) =~= v@.subrange(a as int, colon as int));
                    assert(line.skip(i + 1) =~= v@.subrange(colon + 1, b as int));
                }
                if range_equals(&v, a, colon, &client_key) {
                    client = parse_unsigned_range(&v, va, vb, 10, u64::MAX);
                } else if range_starts_with(&v, a, colon, &engine_prefix) && !range_starts_with(
                    &v,
                    a,
                    colon,
                    &capacity_prefix,
                ) {
                    match first_word_range(&v, va, vb) {
                        Some((wa, wb)) => {
                            match parse_unsigned_range(&v, wa, wb, 10, u64::MAX) {
                                Some(ns) => {
                                    add = ns;
                                },
                                None => {},
                            }
                        },
                        None => {},
                    }
                }
            },
        }
        proof {
            assert(add == engine_time_of_line(line));
            assert((done.push(line)).drop_last() =~= done);
            assert(done.push(line) + rest =~= done + (seq![line] + rest));
            lemma_total_append(done.push(line), rest);
        }
        total = match total {
            Some(t) => if add > u64::MAX - t {
                None
            } else {
                Some(t + add)
            },
            None => None,
        };
        proof {
            done = done.push(line);
        }
        pos = next;
    }
    assert(v@.subrange(n as int, n as int) =~= Seq::<char>::empty());
    assert(done + Seq::<Seq<char>>::empty() =~= done);
    (client, total)
}

/// Extracts a descriptor's DRM client id and its total engine time.
///
/// Returns `None` for descriptors that are not DRM clients.
pub fn parse_fdinfo(info: &str) -> (r: Option<(u64, u64)>)
    requires
        fdinfo_total_fits(info@),
    ensures
        r == parsed_fdinfo(info@),
{
    let (client, total) = scan_fdinfo(info);
    match client {
        Some(id) => Some((id, total.unwrap())),
        None => None,
    }
}

/// Whether the total engine time of `info` fits in a `u64`, which
/// [`parse_fdinfo`] asks of its input.
pub fn fdinfo_fits(info: &str) -> (b: bool)
    ensures
        b == fdinfo_total_fits(info@),
{
    let (_, total) = scan_fdinfo(info);
    total.is_some()
}

} // verus!
