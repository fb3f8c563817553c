//! The syntactic guard on path expressions handed to the outside query
//! engine.
//!
//! The engine aborts instead of returning on a few numeric index forms: a
//! bracket list of two or more numbers aborts unless every member is a
//! plain integer of at most eighteen digits, a single bracket index aborts
//! beyond eighteen digits, and a slice whose step is zero aborts while it
//! is applied. The library therefore refuses, before evaluation, every
//! path on which evaluation might not return.
//!
//! The guard reads the expression character by character and skips quoted
//! strings. Everything not in brackets is allowed. A bracket group whose first character
//! is `?` is a filter and is allowed whole, except that a further `[`
//! inside any group is refused, so no numeric index can hide in a filter.
//! Any other group may hold only digits, commas, colons, minus signs,
//! `*`, whitespace and quoted strings; digit runs beyond eighteen digits
//! are refused, a minus sign may not share a group with a comma, commas
//! may not follow colons, and the step of a slice may not be the lone
//! digit zero. Everything refused here that the engine would in fact
//! evaluate — deep filters among it — comes back as an error, never as a
//! wrong answer.

use vstd::prelude::*;

verus! {

/// The scanner's state after some prefix of the expression.
#[derive(Clone, Copy)]
pub struct GuardState {
    /// The expression has been refused.
    pub rejected: bool,
    /// Where the scan stands: 0 outside any bracket group, 1 just after
    /// `[` awaiting the group's first character, 2 in an index-like
    /// group, 3 in a filter group.
    pub ctx: u8,
    /// Inside a quoted string.
    pub quoted: bool,
    /// The quote character that opened the string.
    pub quote_char: char,
    /// The next quoted character is escaped.
    pub escaped: bool,
    /// The group holds a comma so far.
    pub has_comma: bool,
    /// The group holds a minus sign so far.
    pub has_minus: bool,
    /// How many colons the group holds, counted up to two.
    pub colons: u8,
    /// The length of the current digit run, counted up to nineteen.
    pub run_len: u8,
    /// Where the slice step stands: 0 before any step, 1 just after the
    /// second colon, 2 after a lone zero that must be followed by a
    /// digit, 3 settled.
    pub step_state: u8,
}

pub open spec fn guard_init() -> GuardState {
    GuardState {
        rejected: false,
        ctx: 0,
        quoted: false,
        quote_char: ' ',
        escaped: false,
        has_comma: false,
        has_minus: false,
        colons: 0,
        run_len: 0,
        step_state: 3,
    }
}

pub open spec fn is_ws_char(c: char) -> bool {
    c == ' ' || c == '\t' || c == '\n' || c == '\r'
}

pub open spec fn is_digit_char(c: char) -> bool {
    48 <= (c as u32) <= 57
}

/// One step of the scan inside an index-like group, on a character that
/// is neither a quote nor a bracket.
pub open spec fn guard_group_step(st: GuardState, c: char) -> GuardState {
    if is_digit_char(c) {
        let stepped = if st.step_state == 1 {
            GuardState {
                step_state: if c == '0' {
                    2u8
                } else {
                    3u8
                },
                ..st
            }
        } else if st.step_state == 2 {
            GuardState { step_state: 3u8, ..st }
        } else {
            st
        };
        if st.run_len >= 18 {
            GuardState { rejected: true, ..stepped }
        } else {
            GuardState { run_len: (st.run_len + 1) as u8, ..stepped }
        }
    } else {
        let st0 = GuardState { run_len: 0u8, ..st };
        if is_ws_char(c) {
            if st0.step_state == 2 {
                GuardState { rejected: true, ..st0 }
            } else {
                st0
            }
        } else if c == ',' {
            if st0.has_minus || st0.colons > 0 {
                GuardState { rejected: true, ..st0 }
            } else {
                GuardState { has_comma: true, ..st0 }
            }
        } else if c == '-' {
            if st0.has_comma {
                GuardState { rejected: true, ..st0 }
            } else {
                GuardState {
                    has_minus: true,
                    step_state: if st0.step_state == 2 {
                        3u8
                    } else {
                        st0.step_state
                    },
                    ..st0
                }
            }
        } else if c == ':' {
            if st0.has_comma {
                GuardState { rejected: true, ..st0 }
            } else if st0.colons == 0 {
                GuardState { colons: 1u8, ..st0 }
            } else if st0.colons == 1 {
                GuardState { colons: 2u8, step_state: 1u8, ..st0 }
            } else {
                GuardState {
                    step_state: if st0.step_state == 2 {
                        3u8
                    } else {
                        st0.step_state
                    },
                    ..st0
                }
            }
        } else if c == '*' {
            GuardState {
                step_state: if st0.step_state == 2 {
                    3u8
                } else {
                    st0.step_state
                },
                ..st0
            }
        } else {
            GuardState { rejected: true, ..st0 }
        }
    }
}

/// One step of the scan.
pub open spec fn guard_step(st: GuardState, c: char) -> GuardState {
    if st.rejected {
        st
    } else if st.quoted {
        if st.escaped {
            GuardState { escaped: false, ..st }
        } else if c == '\\' {
            GuardState { escaped: true, ..st }
        } else if c == st.quote_char {
            GuardState { quoted: false, ..st }
        } else {
            st
        }
    } else if c == '\'' || c == '"' {
        if st.ctx == 1 {
            GuardState { ctx: 2u8, quoted: true, quote_char: c, escaped: false, run_len: 0u8, ..st }
        } else {
            GuardState { quoted: true, quote_char: c, escaped: false, run_len: 0u8, ..st }
        }
    } else if c == '[' {
        if st.ctx == 0 {
            GuardState {
                ctx: 1u8,
                has_comma: false,
                has_minus: false,
                colons: 0u8,
                run_len: 0u8,
                step_state: 0u8,
                ..st
            }
        } else {
            GuardState { rejected: true, ..st }
        }
    } else if c == ']' {
        if st.ctx == 0 {
            st
        } else if st.ctx == 2 && st.step_state == 2 {
            GuardState { rejected: true, ..st }
        } else {
            GuardState { ctx: 0u8, ..st }
        }
    } else if st.ctx == 1 {
        if is_ws_char(c) {
            st
        } else if c == '?' {
            GuardState { ctx: 3u8, ..st }
        } else {
            guard_group_step(GuardState { ctx: 2u8, ..st }, c)
        }
    } else if st.ctx == 2 {
        guard_group_step(st, c)
    } else {
        st
    }
}

/// The scanner's state after the whole of `s`, from `st`.
pub open spec fn guard_scan(s: Seq<char>, st: GuardState) -> GuardState
    decreases s.len(),
{
    if s.len() == 0 {
        st
    } else {
        guard_scan(s.drop_first(), guard_step(st, s[0]))
    }
}

/// Whether the expression may be handed to the query engine: evaluation
/// returns, without aborting, on every path the scan accepts.
pub open spec fn supported_path(s: Seq<char>) -> bool {
    !guard_scan(s, guard_init()).rejected
}

fn guard_start() -> (r: GuardState)
    ensures
        r == guard_init(),
{
    GuardState {
        rejected: false,
        ctx: 0,
        quoted: false,
        quote_char: ' ',
        escaped: false,
        has_comma: false,
        has_minus: false,
        colons: 0,
        run_len: 0,
        step_state: 3,
    }
}

fn is_ws(c: char) -> (r: bool)
    ensures
        r == is_ws_char(c),
{
    c == ' ' || c == '\t' || c == '\n' || c == '\r'
}

fn is_digit(c: char) -> (r: bool)
    ensures
        r == is_digit_char(c),
{
    let u = c as u32;
    48 <= u && u <= 57
}

fn guard_advance_group(st: GuardState, c: char) -> (r: GuardState)
    ensures
        r == guard_group_step(st, c),
{
    if is_digit(c) {
        let stepped = if st.step_state == 1 {
            GuardState { step_state: if c == '0' { 2 } else { 3 }, ..st }
        } else if st.step_state == 2 {
            GuardState { step_state: 3, ..st }
        } else {
            st
        };
        if st.run_len >= 18 {
            GuardState { rejected: true, ..stepped }
        } else {
            GuardState { run_len: st.run_len + 1, ..stepped }
        }
    } else {
        let st0 = GuardState { run_len: 0, ..st };
        if is_ws(c) {
            if st0.step_state == 2 {
                GuardState { rejected: true, ..st0 }
            } else {
                st0
            }
        } else if c == ',' {
            if st0.has_minus || st0.colons > 0 {
                GuardState { rejected: true, ..st0 }
            } else {
                GuardState { has_comma: true, ..st0 }
            }
        } else if c == '-' {
            if st0.has_comma {
                GuardState { rejected: true, ..st0 }
            } else {
                GuardState {
                    has_minus: true,
                    step_state: if st0.step_state == 2 { 3 } else { st0.step_state },
                    ..st0
                }
            }
        } else if c == ':' {
            if st0.has_comma {
                GuardState { rejected: true, ..st0 }
            } else if st0.colons == 0 {
                GuardState { colons: 1, ..st0 }
            } else if st0.colons == 1 {
                GuardState { colons: 2, step_state: 1, ..st0 }
            } else {
                GuardState {
                    step_state: if st0.step_state == 2 { 3 } else { st0.step_state },
                    ..st0
                }
            }
        } else if c == '*' {
            GuardState {
                step_state: if st0.step_state == 2 { 3 } else { st0.step_state },
                ..st0
            }
        } else {
            GuardState { rejected: true, ..st0 }
        }
    }
}

fn guard_advance(st: GuardState, c: char) -> (r: GuardState)
    ensures
        r == guard_step(st, c),
{
    if st.rejected {
        st
    } else if st.quoted {
        if st.escaped {
            GuardState { escaped: false, ..st }
        } else if c == '\\' {
            GuardState { escaped: true, ..st }
        } else if c == st.quote_char {
            GuardState { quoted: false, ..st }
        } else {
            st
        }
    } else if c == '\'' || c == '"' {
        if st.ctx == 1 {
            GuardState { ctx: 2, quoted: true, quote_char: c, escaped: false, run_len: 0, ..st }
        } else {
            GuardState { quoted: true, quote_char: c, escaped: false, run_len: 0, ..st }
        }
    } else if c == '[' {
        if st.ctx == 0 {
            GuardState {
                ctx: 1,
                has_comma: false,
                has_minus: false,
                colons: 0,
                run_len: 0,
                step_state: 0,
                ..st
            }
        } else {
            GuardState { rejected: true, ..st }
        }
    } else if c == ']' {
        if st.ctx == 0 {
            st
        } else if st.ctx == 2 && st.step_state == 2 {
            GuardState { rejected: true, ..st }
        } else {
            GuardState { ctx: 0, ..st }
        }
    } else if st.ctx == 1 {
        if is_ws(c) {
            st
        } else if c == '?' {
            GuardState { ctx: 3, ..st }
        } else {
            guard_advance_group(GuardState { ctx: 2, ..st }, c)
        }
    } else if st.ctx == 2 {
        guard_advance_group(st, c)
    } else {
        st
    }
}

/// Decides whether `path` may be handed to the query engine.
pub fn path_supported(path: &str) -> (r: bool)
    ensures
        r == supported_path(path@),
{
    let n = path.unicode_len();
    let mut st = guard_start();
    let mut i: usize = 0;
    proof {
        assert(path@.skip(0) =~= path@);
    }
    while i < n
        invariant
            n == path@.len(),
            i <= n,
            guard_scan(path@, guard_init()) == guard_scan(path@.skip(i as int), st),
        decreases n - i,
    {
        let c = path.get_char(i);
        proof {
            assert(path@.skip(i as int)[0] == path@[i as int]);
            assert(path@.skip(i as int).drop_first() =~= path@.skip(i + 1));
        }
        st = guard_advance(st, c);
        i = i + 1;
    }
    proof {
        assert(path@.skip(n as int).len() == 0);
    }
    !st.rejected
}

} // verus!
