//! Mapping byte offsets back to source lines for reporting.
//!
//! The analysis stores byte offsets in its diagnostics; the line number a
//! diagnostic prints with is computed from the preprocessed source text by
//! the parser crate's own location lookup, so `#line` directives are
//! honoured the same way the parser honours them.

use vstd::prelude::*;

use crate::checker::BorrowChecker;
use crate::diagnostics::Diagnostic;
use vstd::string::StringSliceAdditionalSpecFns;

verus! {

/// The line number the parser's location lookup reports for a byte offset
/// of the source; a function of the two arguments alone.
pub uninterp spec fn line_of(src: Seq<char>, pos: int) -> int;

/// A decimal digit.
pub open spec fn decimal_digit(c: char) -> bool {
    '0' <= c && c <= '9'
}

/// A source text the line lookup is safe on: the offset stays inside the
/// text, the text is of ordinary size, and no nine consecutive characters
/// are all digits.  The last two bounds keep the lookup's line counter far
/// from the integer limit: a `#line` directive can set the counter only to
/// a number it parses out of the text, at most eight digits long here, and
/// the counter then grows by at most one per line.
/// Among any nine consecutive characters below `bound`, one is not a digit.
pub open spec fn short_digit_runs_below(src: Seq<char>, bound: int) -> bool {
    forall|i: int|
        #![trigger src[i]]
        0 <= i && i + 8 < bound ==> (!decimal_digit(src[i]) || !decimal_digit(src[i + 1])
            || !decimal_digit(src[i + 2]) || !decimal_digit(src[i + 3]) || !decimal_digit(
            src[i + 4],
        ) || !decimal_digit(src[i + 5]) || !decimal_digit(src[i + 6]) || !decimal_digit(
            src[i + 7],
        ) || !decimal_digit(src[i + 8]))
}

pub open spec fn line_lookup_safe(src: Seq<char>) -> bool {
    &&& src.len() < 0x8000000
    &&& short_digit_runs_below(src, src.len() as int)
}

/// Relies on `lang_c::loc::get_location_for_offset`: computes the line that
/// a byte offset of a preprocessed source falls on, following `#line`
/// directives.  The result depends on the source text and the offset alone.
/// Offsets past the end of the text would step out of the string, and a
/// directive naming the largest representable line number would overflow
/// the lookup's per-line increment, so both are excluded here: with every
/// digit run at most eight characters and fewer than `0x8000000`
/// characters of text, the counter stays below `0x10000000`.
#[verifier::external_body]
fn location_line(src: &str, pos: usize) -> (r: usize)
    requires
        pos <= src.spec_bytes().len(),
        line_lookup_safe(src@),
    ensures
        r == line_of(src@, pos as int),
{
    let (location, _) = lang_c::loc::get_location_for_offset(src, pos);
    location.line
}

/// The offset clamped to the source text's length in bytes.
pub open spec fn clamped_offset(src: Seq<char>, pos: usize) -> int {
    if pos <= vstd::utf8::encode_utf8(src).len() {
        pos as int
    } else {
        vstd::utf8::encode_utf8(src).len() as int
    }
}

/// Whether the text is one the line lookup is safe on.
fn check_line_lookup_safe(src: &str) -> (r: bool)
    ensures
        r == line_lookup_safe(src@),
{
    let cs = crate::strings::chars_vec(src);
    let n = cs.len();
    if n >= 0x8000000 {
        return false;
    }
    let mut i: usize = 0;
    let mut run: usize = 0;
    while i < n
        invariant
            n == cs@.len(),
            cs@ == src@,
            n < 0x8000000,
            i <= n,
            run <= 8,
            run <= i,
            forall|j: int| #![trigger src@[j]] i - run <= j < i ==> decimal_digit(src@[j]),
            run < i ==> !decimal_digit(src@[i - run - 1]),
            short_digit_runs_below(src@, i as int),
        decreases n - i,
    {
        let c = cs[i];
        proof {
            assert(c == src@[i as int]);
        }
        if '0' <= c && c <= '9' {
            if run == 8 {
                proof {
                    assert forall|j: int| i - 8 <= j <= i implies decimal_digit(src@[j]) by {
                        if j < i {
                            assert(decimal_digit(src@[j]));
                        } else {
                            assert(src@[j] == c);
                        }
                    }
                    assert(!line_lookup_safe(src@)) by {
                        if line_lookup_safe(src@) {
                            let a = i - 8;
                            let witness = src@[a];
                            assert(0 <= a && a + 8 < src@.len());
                            assert(decimal_digit(src@[a]) && decimal_digit(src@[a + 1])
                                && decimal_digit(src@[a + 2]) && decimal_digit(src@[a + 3])
                                && decimal_digit(src@[a + 4]) && decimal_digit(src@[a + 5])
                                && decimal_digit(src@[a + 6]) && decimal_digit(src@[a + 7])
                                && decimal_digit(src@[a + 8]));
                        }
                    }
                }
                return false;
            }
            run = run + 1;
        } else {
            run = 0;
        }
        proof {
            assert forall|a: int|
                #![trigger src@[a]]
                0 <= a && a + 8 < i + 1 implies (!decimal_digit(src@[a]) || !decimal_digit(
                src@[a + 1],
            ) || !decimal_digit(src@[a + 2]) || !decimal_digit(src@[a + 3]) || !decimal_digit(
                src@[a + 4],
            ) || !decimal_digit(src@[a + 5]) || !decimal_digit(src@[a + 6]) || !decimal_digit(
                src@[a + 7],
            ) || !decimal_digit(src@[a + 8])) by {
                if a + 8 < i {
                    let witness = src@[a];
                } else {
                    assert(a + 8 == i);
                    if decimal_digit(src@[i as int]) {
                        assert(src@[i as int] == c);
                        assert(!decimal_digit(src@[i - run]));
                        assert(a <= i - run <= a + 8);
                    }
                }
            }
        }
        i = i + 1;
    }
    true
}

/// The line a byte offset of `src` falls on; offsets past the end count as
/// the end of the text.  For the degenerate texts the lookup is unsafe on,
/// line zero stands in.
pub fn line_for_offset(src: &str, pos: usize) -> (r: usize)
    ensures
        line_lookup_safe(src@) ==> r == line_of(src@, clamped_offset(src@, pos)),
        !line_lookup_safe(src@) ==> r == 0,
{
    if !check_line_lookup_safe(src) {
        return 0;
    }
    let n = src.as_bytes().len();
    proof {
        assert(src.spec_bytes() == vstd::utf8::encode_utf8(src@));
    }
    if pos <= n {
        location_line(src, pos)
    } else {
        location_line(src, n)
    }
}

impl BorrowChecker {
    /// The source line a diagnostic points at, when it points at one.
    pub fn diagnostic_line(&self, d: &Diagnostic) -> (r: Option<usize>)
        ensures
            match d.spec_offset() {
                Option::Some(off) => r matches Option::Some(line) && (line_lookup_safe(self.src@)
                    ==> line == line_of(self.src@, clamped_offset(self.src@, off))),
                Option::None => r is None,
            },
    {
        match d.offset() {
            Option::Some(off) => Option::Some(line_for_offset(self.src.as_str(), off)),
            Option::None => Option::None,
        }
    }
}

} // verus!
