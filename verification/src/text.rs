//! Text metrics that treat styling escape runs as zero-width.
//!
//! A styling escape run starts at [`ESCAPE_MARK`] and ends at the first
//! [`ESCAPE_END`] that follows; every character of the run, both markers
//! included, occupies no visual column. A run left open at the end of a
//! line is valid: its characters simply do not count.

use vstd::prelude::*;
use vstd::string::StrSliceExecFns;
use vstd::string::StringExecFns;

verus! {

/// The character that opens a styling escape run.
pub const ESCAPE_MARK: char = '\x1b';

/// The character that closes a styling escape run.
pub const ESCAPE_END: char = 'm';

/// Visual width of a tail of a line, entered in the given escape state.
pub open spec fn width_from(s: Seq<char>, in_escape: bool) -> nat
    decreases s.len(),
{
    if s.len() == 0 {
        0
    } else if in_escape {
        width_from(s.drop_first(), s[0] != ESCAPE_END)
    } else if s[0] == ESCAPE_MARK {
        width_from(s.drop_first(), true)
    } else {
        1 + width_from(s.drop_first(), false)
    }
}

/// Visual width of a whole line: the number of terminal columns it occupies,
/// with styling escape runs contributing nothing.
pub open spec fn line_width(s: Seq<char>) -> nat {
    width_from(s, false)
}

/// The characters kept when cropping a tail of a line: every escape-run
/// character is kept, and an ordinary character is kept exactly when its
/// visual position (counted from `pos`) has reached `col`.
pub open spec fn crop_rec(s: Seq<char>, in_escape: bool, pos: int, col: int) -> Seq<char>
    decreases s.len(),
{
    if s.len() == 0 {
        Seq::empty()
    } else if in_escape {
        seq![s[0]] + crop_rec(s.drop_first(), s[0] != ESCAPE_END, pos, col)
    } else if s[0] == ESCAPE_MARK {
        seq![s[0]] + crop_rec(s.drop_first(), true, pos, col)
    } else if pos >= col {
        seq![s[0]] + crop_rec(s.drop_first(), false, pos + 1, col)
    } else {
        crop_rec(s.drop_first(), false, pos + 1, col)
    }
}

/// The line that cropping at visual column `col` yields: the line unchanged
/// at column 0; otherwise the kept characters, or a single space when nothing
/// was kept from a non-empty line (so a fixed-grid renderer keeps the row).
pub open spec fn cropped_line(s: Seq<char>, col: int) -> Seq<char> {
    if col == 0 {
        s
    } else {
        let kept = crop_rec(s, false, 0, col);
        if kept.len() == 0 && s.len() > 0 {
            seq![' ']
        } else {
            kept
        }
    }
}

/// Relies on `String::push`: appends exactly the one character.
#[verifier::external_body]
pub(crate) fn push_char(s: &mut String, c: char)
    ensures
        final(s)@ == old(s)@.push(c),
{
    s.push(c)
}

/// Number of terminal columns `line` occupies, escape runs excluded.
pub fn visual_width(line: &str) -> (w: usize)
    ensures
        w == line_width(line@),
{
    let n = line.unicode_len();
    let mut w: usize = 0;
    let mut in_escape = false;
    let mut i: usize = 0;
    proof {
        assert(line@.skip(0) =~= line@);
    }
    while i < n
        invariant
            0 <= i <= n,
            n == line@.len(),
            w <= i,
            w + width_from(line@.skip(i as int), in_escape) == line_width(line@),
        decreases n - i,
    {
        let c = line.get_char(i);
        proof {
            assert(line@.skip(i as int)[0] == line@[i as int]);
            assert(line@.skip(i as int).drop_first() =~= line@.skip(i as int + 1));
        }
        if in_escape {
            if c == ESCAPE_END {
                in_escape = false;
            }
        } else if c == ESCAPE_MARK {
            in_escape = true;
        } else {
            w = w + 1;
        }
        i = i + 1;
    }
    proof {
        assert(line@.skip(n as int) =~= Seq::<char>::empty());
    }
    w
}

/// Copy of `line` horizontally cropped at visual column `scroll_x`: styling
/// escape runs survive wherever they stand, ordinary characters before the
/// column are dropped, and a non-empty line never crops to an empty one.
pub fn crop_line_for_scroll(line: &str, scroll_x: usize) -> (r: String)
    ensures
        r@ == cropped_line(line@, scroll_x as int),
{
    if scroll_x == 0 {
        return String::from_str(line);
    }
    let n = line.unicode_len();
    let mut result = String::new();
    let mut in_escape = false;
    let mut pos: usize = 0;
    let mut i: usize = 0;
    proof {
        assert(line@.skip(0) =~= line@);
    }
    while i < n
        invariant
            0 <= i <= n,
            n == line@.len(),
            pos <= i,
            scroll_x >= 1,
            result@ + crop_rec(line@.skip(i as int), in_escape, pos as int, scroll_x as int)
                == crop_rec(line@, false, 0, scroll_x as int),
        decreases n - i,
    {
        let c = line.get_char(i);
        proof {
            assert(line@.skip(i as int)[0] == line@[i as int]);
            assert(line@.skip(i as int).drop_first() =~= line@.skip(i as int + 1));
        }
        if in_escape {
            push_char(&mut result, c);
            if c == ESCAPE_END {
                in_escape = false;
            }
        } else if c == ESCAPE_MARK {
            push_char(&mut result, c);
            in_escape = true;
        } else {
            if pos >= scroll_x {
                push_char(&mut result, c);
            }
            pos = pos + 1;
        }
        i = i + 1;
    }
    proof {
        assert(line@.skip(n as int) =~= Seq::<char>::empty());
        assert(result@ == crop_rec(line@, false, 0, scroll_x as int));
    }
    if result.as_str().is_empty() && !line.is_empty() {
        let fallback = String::from_str(" ");
        proof {
            reveal_strlit(" ");
            assert(fallback@ =~= seq![' ']);
        }
        fallback
    } else {
        result
    }
}

/// How wide the kept part of a tail is: every visual position from
/// `max(pos, col)` up to `pos` plus the tail's width contributes one column.
proof fn lemma_crop_rec_width(s: Seq<char>, in_escape: bool, pos: int, col: int)
    ensures
        width_from(crop_rec(s, in_escape, pos, col), in_escape) == if pos >= col {
            width_from(s, in_escape) as int
        } else if pos + width_from(s, in_escape) >= col {
            pos + width_from(s, in_escape) - col
        } else {
            0
        },
    decreases s.len(),
{
    if s.len() == 0 {
    } else {
        let c = s[0];
        let rest = s.drop_first();
        if in_escape {
            let tail = crop_rec(rest, c != ESCAPE_END, pos, col);
            assert((seq![c] + tail).drop_first() =~= tail);
            lemma_crop_rec_width(rest, c != ESCAPE_END, pos, col);
        } else if c == ESCAPE_MARK {
            let tail = crop_rec(rest, true, pos, col);
            assert((seq![c] + tail).drop_first() =~= tail);
            lemma_crop_rec_width(rest, true, pos, col);
        } else if pos >= col {
            let tail = crop_rec(rest, false, pos + 1, col);
            assert((seq![c] + tail).drop_first() =~= tail);
            lemma_crop_rec_width(rest, false, pos + 1, col);
        } else {
            lemma_crop_rec_width(rest, false, pos + 1, col);
        }
    }
}

/// Cropping at or past a line's visual width leaves nothing visible: the
/// result has visual width zero (only styling runs remain), or it is the
/// single-space fallback for a non-empty line.
pub proof fn lemma_crop_past_width(s: Seq<char>, col: int)
    requires
        col >= line_width(s),
    ensures
        line_width(cropped_line(s, col)) == 0 || cropped_line(s, col) == seq![' '],
{
    if col == 0 {
    } else {
        lemma_crop_rec_width(s, false, 0, col);
    }
}

/// True when the line holds no escape mark at all.
pub open spec fn has_no_escape(s: Seq<char>) -> bool {
    forall|i: int| 0 <= i < s.len() ==> s[i] != ESCAPE_MARK
}

/// On a line without escape marks, every character occupies one column.
pub proof fn lemma_width_no_escape(s: Seq<char>)
    requires
        has_no_escape(s),
    ensures
        line_width(s) == s.len(),
    decreases s.len(),
{
    if s.len() > 0 {
        assert forall|i: int| 0 <= i < s.drop_first().len() implies s.drop_first()[i]
            != ESCAPE_MARK by {
            assert(s.drop_first()[i] == s[i + 1]);
        }
        lemma_width_no_escape(s.drop_first());
    }
}

proof fn lemma_crop_rec_no_escape(s: Seq<char>, pos: int, col: int)
    requires
        has_no_escape(s),
    ensures
        crop_rec(s, false, pos, col) =~= if col - pos <= 0 {
            s
        } else if col - pos >= s.len() {
            Seq::<char>::empty()
        } else {
            s.skip(col - pos)
        },
    decreases s.len(),
{
    if s.len() > 0 {
        let rest = s.drop_first();
        assert forall|i: int| 0 <= i < rest.len() implies rest[i] != ESCAPE_MARK by {
            assert(rest[i] == s[i + 1]);
        }
        lemma_crop_rec_no_escape(rest, pos + 1, col);
        if pos >= col {
            let tail = crop_rec(rest, false, pos + 1, col);
            assert(seq![s[0]] + tail =~= s);
        } else if col - pos < s.len() && col - pos > 1 {
            assert(rest.skip(col - pos - 1) =~= s.skip(col - pos));
        } else if col - pos == 1 {
            assert(rest =~= s.skip(1));
        }
    }
}

/// On a line of `N` characters and no escape marks, cropping at column
/// `k <= N` keeps exactly the last `N - k` characters; except that cropping
/// a non-empty line at exactly `N` yields the single-space fallback.
pub proof fn lemma_crop_no_escape(s: Seq<char>, k: int)
    requires
        has_no_escape(s),
        0 <= k <= s.len(),
    ensures
        k < s.len() || s.len() == 0 ==> cropped_line(s, k) =~= s.skip(k),
        k == s.len() && s.len() > 0 ==> cropped_line(s, k) == seq![' '],
{
    if k == 0 {
        assert(s.skip(0) =~= s);
    } else {
        lemma_crop_rec_no_escape(s, 0, k);
    }
}

/// Cropping is idempotent at the base column: re-cropping any cropped line
/// at column 0 changes nothing.
pub proof fn lemma_crop_idempotent_at_zero(s: Seq<char>, k: int)
    ensures
        cropped_line(cropped_line(s, k), 0) == cropped_line(s, k),
{
}

} // verus!
