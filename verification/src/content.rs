//! Assembling refresh content out of raw source lines: blank lines are
//! dropped, a command's standard-error lines are wrapped in a red styling
//! escape pair and appended after its standard-output lines, and an empty
//! result becomes a single descriptive fallback line — the content handed
//! to the viewport is never an empty list.

use vstd::prelude::*;
use vstd::string::StrSliceExecFns;
use vstd::string::StringExecFns;

verus! {

/// A whitespace character: the characters `char::is_whitespace` accepts —
/// the Unicode `White_Space` set, not just its ASCII part.
pub open spec fn is_blank_char(c: char) -> bool {
    ||| c == ' '
    ||| c == '\t'
    ||| c == '\n'
    ||| c == '\u{b}'
    ||| c == '\u{c}'
    ||| c == '\r'
    ||| c == '\u{85}'
    ||| c == '\u{a0}'
    ||| c == '\u{1680}'
    ||| c == '\u{2000}'
    ||| c == '\u{2001}'
    ||| c == '\u{2002}'
    ||| c == '\u{2003}'
    ||| c == '\u{2004}'
    ||| c == '\u{2005}'
    ||| c == '\u{2006}'
    ||| c == '\u{2007}'
    ||| c == '\u{2008}'
    ||| c == '\u{2009}'
    ||| c == '\u{200a}'
    ||| c == '\u{2028}'
    ||| c == '\u{2029}'
    ||| c == '\u{202f}'
    ||| c == '\u{205f}'
    ||| c == '\u{3000}'
}

/// Whether `c` is whitespace; see [`is_blank_char`].
pub fn blank_char(c: char) -> (r: bool)
    ensures
        r == is_blank_char(c),
{
    c == ' ' || c == '\t' || c == '\n' || c == '\u{b}' || c == '\u{c}' || c == '\r'
        || c == '\u{85}' || c == '\u{a0}' || c == '\u{1680}' || c == '\u{2000}' || c == '\u{2001}'
        || c == '\u{2002}' || c == '\u{2003}' || c == '\u{2004}' || c == '\u{2005}'
        || c == '\u{2006}' || c == '\u{2007}' || c == '\u{2008}' || c == '\u{2009}'
        || c == '\u{200a}' || c == '\u{2028}' || c == '\u{2029}' || c == '\u{202f}'
        || c == '\u{205f}' || c == '\u{3000}'
}

/// A line of nothing but whitespace (the empty line included).
pub open spec fn is_blank(s: Seq<char>) -> bool {
    forall|i: int| 0 <= i < s.len() ==> is_blank_char(s[i])
}

/// Whether `line` holds only whitespace.
pub fn is_blank_line(line: &str) -> (r: bool)
    ensures
        r == is_blank(line@),
{
    let n = line.unicode_len();
    let mut i: usize = 0;
    while i < n
        invariant
            0 <= i <= n,
            n == line@.len(),
            forall|j: int| 0 <= j < i ==> is_blank_char(line@[j]),
        decreases n - i,
    {
        let c = line.get_char(i);
        if !blank_char(c) {
            return false;
        }
        i = i + 1;
    }
    true
}

/// The non-blank lines, in their original order.
pub open spec fn nonblank(lines: Seq<Seq<char>>) -> Seq<Seq<char>>
    decreases lines.len(),
{
    if lines.len() == 0 {
        Seq::empty()
    } else {
        let rest = nonblank(lines.drop_last());
        if is_blank(lines.last()) {
            rest
        } else {
            rest.push(lines.last())
        }
    }
}

/// A line wrapped in the red styling escape pair.
pub open spec fn red_wrapped(s: Seq<char>) -> Seq<char> {
    "\x1b[31m"@ + s + "\x1b[0m"@
}

fn wrap_red(line: &str) -> (r: String)
    ensures
        r@ == red_wrapped(line@),
{
    let mut s = String::from_str("\x1b[31m");
    s.append(line);
    s.append("\x1b[0m");
    proof {
        assert(s@ =~= red_wrapped(line@));
    }
    s
}

/// What one refresh from a spawned command yields: the non-blank standard-
/// output lines, then the non-blank standard-error lines each wrapped in
/// red, or the single fallback line when nothing remains.
pub open spec fn command_content(out: Seq<Seq<char>>, err: Seq<Seq<char>>) -> Seq<Seq<char>> {
    let body = nonblank(out) + nonblank(err).map_values(|s: Seq<char>| red_wrapped(s));
    if body.len() == 0 {
        seq!["命令无输出"@]
    } else {
        body
    }
}

/// What one refresh from a file yields: its non-blank lines, or a single
/// fallback line naming the file when nothing remains.
pub open spec fn file_content(lines: Seq<Seq<char>>, path: Seq<char>) -> Seq<Seq<char>> {
    let body = nonblank(lines);
    if body.len() == 0 {
        seq!["文件 "@ + path + " 为空"@]
    } else {
        body
    }
}

/// What one refresh from the default source yields: its non-blank lines,
/// or the single fallback line for the default path when nothing remains.
pub open spec fn default_content(lines: Seq<Seq<char>>) -> Seq<Seq<char>> {
    let body = nonblank(lines);
    if body.len() == 0 {
        seq!["/proc/interrupts 为空"@]
    } else {
        body
    }
}

/// The non-blank lines of `lines`, in order.
fn filter_nonblank(lines: &Vec<String>) -> (r: Vec<String>)
    ensures
        r.deep_view() == nonblank(lines.deep_view()),
{
    let ghost lv = lines.deep_view();
    let mut r: Vec<String> = Vec::new();
    let mut i: usize = 0;
    proof {
        assert(lv.take(0) =~= Seq::<Seq<char>>::empty());
        assert(r.deep_view() =~= nonblank(lv.take(0)));
    }
    while i < lines.len()
        invariant
            0 <= i <= lines.len(),
            lv == lines.deep_view(),
            lv.len() == lines.len(),
            r.deep_view() == nonblank(lv.take(i as int)),
        decreases lines.len() - i,
    {
        proof {
            assert(lv.take(i + 1).drop_last() =~= lv.take(i as int));
            assert(lv.take(i + 1).last() == lv[i as int]);
        }
        if !is_blank_line(lines[i].as_str()) {
            let ghost prev = r.deep_view();
            let line = lines[i].clone();
            r.push(line);
            proof {
                assert(r.deep_view() =~= prev.push(lv[i as int]));
            }
        }
        i = i + 1;
    }
    proof {
        assert(lv.take(lines.len() as int) =~= lv);
    }
    r
}

/// Assemble the content of one command refresh; see [`command_content`].
pub fn build_command_content(stdout_lines: Vec<String>, stderr_lines: Vec<String>) -> (r: Vec<
    String,
>)
    ensures
        r.deep_view() == command_content(stdout_lines.deep_view(), stderr_lines.deep_view()),
{
    let ghost outv = stdout_lines.deep_view();
    let ghost errv = stderr_lines.deep_view();
    let ghost wrap = |s: Seq<char>| red_wrapped(s);
    let mut r = filter_nonblank(&stdout_lines);
    proof {
        assert(errv.take(0) =~= Seq::<Seq<char>>::empty());
        assert(nonblank(errv.take(0)).map_values(wrap) =~= Seq::<Seq<char>>::empty());
        assert(r.deep_view() =~= nonblank(outv) + nonblank(errv.take(0)).map_values(wrap));
    }
    let mut j: usize = 0;
    while j < stderr_lines.len()
        invariant
            0 <= j <= stderr_lines.len(),
            errv == stderr_lines.deep_view(),
            errv.len() == stderr_lines.len(),
            wrap == (|s: Seq<char>| red_wrapped(s)),
            r.deep_view() == nonblank(outv) + nonblank(errv.take(j as int)).map_values(wrap),
        decreases stderr_lines.len() - j,
    {
        proof {
            assert(errv.take(j + 1).drop_last() =~= errv.take(j as int));
            assert(errv.take(j + 1).last() == errv[j as int]);
        }
        if !is_blank_line(stderr_lines[j].as_str()) {
            let ghost prev = r.deep_view();
            let wrapped = wrap_red(stderr_lines[j].as_str());
            r.push(wrapped);
            proof {
                assert(r.deep_view() =~= prev.push(red_wrapped(errv[j as int])));
                assert(nonblank(errv.take(j + 1)).map_values(wrap) =~= nonblank(
                    errv.take(j as int),
                ).map_values(wrap).push(red_wrapped(errv[j as int])));
                assert(nonblank(outv) + nonblank(errv.take(j as int)).map_values(wrap).push(
                    red_wrapped(errv[j as int]),
                ) =~= (nonblank(outv) + nonblank(errv.take(j as int)).map_values(wrap)).push(
                    red_wrapped(errv[j as int]),
                ));
            }
        }
        j = j + 1;
    }
    proof {
        assert(errv.take(stderr_lines.len() as int) =~= errv);
    }
    if r.len() == 0 {
        let mut fallback: Vec<String> = Vec::new();
        fallback.push(String::from_str("命令无输出"));
        proof {
            assert(fallback.deep_view() =~= seq!["命令无输出"@]);
        }
        fallback
    } else {
        r
    }
}

/// Assemble the content of one file refresh; see [`file_content`].
pub fn build_file_content(lines: Vec<String>, path: &str) -> (r: Vec<String>)
    ensures
        r.deep_view() == file_content(lines.deep_view(), path@),
{
    let r = filter_nonblank(&lines);
    if r.len() == 0 {
        let mut s = String::from_str("文件 ");
        s.append(path);
        s.append(" 为空");
        let mut fallback: Vec<String> = Vec::new();
        fallback.push(s);
        proof {
            assert(fallback.deep_view() =~= seq!["文件 "@ + path@ + " 为空"@]);
        }
        fallback
    } else {
        r
    }
}

/// Assemble the content of one refresh from the default source,
/// `/proc/interrupts`; see [`default_content`].
pub fn build_default_content(lines: Vec<String>) -> (r: Vec<String>)
    ensures
        r.deep_view() == default_content(lines.deep_view()),
{
    let r = filter_nonblank(&lines);
    if r.len() == 0 {
        let mut fallback: Vec<String> = Vec::new();
        fallback.push(String::from_str("/proc/interrupts 为空"));
        proof {
            assert(fallback.deep_view() =~= seq!["/proc/interrupts 为空"@]);
        }
        fallback
    } else {
        r
    }
}

/// The bound on one external command read: 80% of the refresh interval,
/// floored at 100 ms and capped at 3000 ms.
pub open spec fn source_timeout_spec(interval_ms: int) -> int {
    let t = interval_ms * 4 / 5;
    if t < 100 {
        100
    } else if t > 3000 {
        3000
    } else {
        t
    }
}

/// How long one external command read may run before it is abandoned.
pub fn source_timeout_ms(interval_ms: u64) -> (r: u64)
    ensures
        r == source_timeout_spec(interval_ms as int),
{
    let t = interval_ms as u128 * 4 / 5;
    if t < 100 {
        100
    } else if t > 3000 {
        3000
    } else {
        t as u64
    }
}

} // verus!
