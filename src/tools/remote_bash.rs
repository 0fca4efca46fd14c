//! Rules of the remote shell tool: refusing shell-level backgrounding, the
//! command timeout, and how large output is summarised.
use vstd::prelude::*;

use vstd::utf8::{encode_utf8, is_char_boundary};

use crate::text::{chars_of, decimal, has_prefix, has_suffix, line_bounds, lines_of, push_decimal, push_range, push_str, starts_with_at, trim_bounds, trim_of};
use crate::utils::path::{shell_escape, shell_escaped};

verus! {

/// The first position at which `p` occurs in `s`, if any.
pub open spec fn find_sub(s: Seq<char>, p: Seq<char>) -> Option<nat>
    decreases s.len(),
{
    if has_prefix(s, p) {
        Some(0)
    } else if s.len() == 0 {
        None
    } else {
        match find_sub(s.drop_first(), p) {
            Some(i) => Some(i + 1),
            None => None,
        }
    }
}

/// The pieces of `s` between the non-overlapping occurrences of `p`, found
/// from the left, as `str::split` yields them.
pub open spec fn split_by(s: Seq<char>, p: Seq<char>) -> Seq<Seq<char>>
    decreases s.len(),
{
    if p.len() == 0 {
        seq![s]
    } else {
        match find_sub(s, p) {
            None => seq![s],
            Some(i) => if i + p.len() <= s.len() {
                seq![s.take(i as int)] + split_by(s.skip((i + p.len()) as int), p)
            } else {
                seq![s]
            },
        }
    }
}

/// Whether `s` starts with `kw` followed by a space.
pub open spec fn starts_command(s: Seq<char>, kw: Seq<char>) -> bool {
    has_prefix(s, kw + seq![' '])
}

/// Whether some piece of `s` split at `sep`, once trimmed, starts with `kw`
/// and a space.
pub open spec fn some_piece_starts(s: Seq<char>, sep: Seq<char>, kw: Seq<char>) -> bool {
    exists|i: int| 0 <= i < split_by(s, sep).len() && starts_command(trim_of(#[trigger] split_by(s, sep)[i]), kw)
}

/// Whether `kw` stands in command position in the trimmed command `t`: at its
/// start, or at the start of a piece after `&& `, `|| ` or `; `.
pub open spec fn in_command_position(t: Seq<char>, kw: Seq<char>) -> bool {
    starts_command(t, kw) || some_piece_starts(t, "&& "@, kw) || some_piece_starts(t, "|| "@, kw)
        || some_piece_starts(t, "; "@, kw)
}

/// `s` with every trailing occurrence of `p` removed, as `trim_end_matches`.
pub open spec fn strip_all(s: Seq<char>, p: Seq<char>) -> Seq<char>
    decreases s.len(),
{
    if p.len() > 0 && has_suffix(s, p) {
        strip_all(s.take(s.len() - p.len()), p)
    } else {
        s
    }
}

/// The command's tail once trailing `echo $!`, `;`, `disown`, `;` and
/// whitespace are taken off, in that order.
pub open spec fn stripped_tail(t: Seq<char>) -> Seq<char> {
    crate::text::trim_end_of(
        strip_all(
            strip_all(strip_all(strip_all(crate::text::trim_end_of(t), "echo $!"@), seq![';']), "disown"@),
            seq![';'],
        ),
    )
}

/// The backgrounding pattern that `command` uses, if any: `nohup` or `setsid`
/// in command position, or a trailing `&` that is not `&&`.
pub open spec fn background_pattern(command: Seq<char>) -> Option<Seq<char>> {
    let t = trim_of(command);
    if in_command_position(t, "nohup"@) {
        Some("nohup"@)
    } else if in_command_position(t, "setsid"@) {
        Some("setsid"@)
    } else {
        let s = stripped_tail(t);
        if has_suffix(s, seq!['&']) && !has_suffix(s, seq!['&', '&']) {
            Some("trailing &"@)
        } else {
            None
        }
    }
}

proof fn lemma_find_sub(s: Seq<char>, p: Seq<char>, k: int)
    requires
        0 <= k <= s.len(),
        forall|j: int| 0 <= j < k ==> !has_prefix(#[trigger] s.skip(j), p),
    ensures
        has_prefix(s.skip(k), p) ==> find_sub(s, p) == Some(k as nat),
        (k == s.len() && !has_prefix(s.skip(k), p)) ==> find_sub(s, p) is None,
    decreases k,
{
    assert(s.skip(0) =~= s);
    if k > 0 {
        assert forall|j: int| 0 <= j < k - 1 implies !has_prefix(#[trigger] s.drop_first().skip(j), p) by {
            assert(s.drop_first().skip(j) =~= s.skip(j + 1));
        }
        assert(s.drop_first().skip(k - 1) =~= s.skip(k));
        lemma_find_sub(s.drop_first(), p, k - 1);
    }
}

/// Whether `v[a..b]` starts with `kw` and a space.
fn range_starts_command(v: &Vec<char>, ta: usize, tb: usize, kw: &Vec<char>) -> (r: bool)
    requires
        ta <= tb <= v@.len(),
    ensures
        r == starts_command(v@.subrange(ta as int, tb as int), kw@),
{
    let ghost t = v@.subrange(ta as int, tb as int);
    if kw.len() >= tb - ta {
        return false;
    }
    let m = starts_with_at(v, ta, kw);
    assert(t.take(kw@.len() as int) =~= v@.skip(ta as int).take(kw@.len() as int));
    if !m {
        proof {
            if starts_command(t, kw@) {
                assert(t.take(kw@.len() as int) =~= t.take(kw@.len() as int + 1).take(kw@.len() as int));
                assert((kw@ + seq![' ']).take(kw@.len() as int) =~= kw@);
                assert(t.take(kw@.len() as int) =~= kw@);
            }
        }
        return false;
    }
    let r = v[ta + kw.len()] == ' ';
    proof {
        assert(t[kw@.len() as int] == v@[ta + kw@.len()]);
        if r {
            assert(t.take(kw@.len() as int + 1) =~= kw@ + seq![' ']);
        } else if starts_command(t, kw@) {
            assert((kw@ + seq![' '])[kw@.len() as int] == ' ');
            assert(t.take(kw@.len() as int + 1)[kw@.len() as int] == t[kw@.len() as int]);
        }
    }
    r
}

/// Whether `v[a..b]`, trimmed, starts with `kw` and a space.
fn trimmed_starts_command(v: &Vec<char>, a: usize, b: usize, kw: &Vec<char>) -> (r: bool)
    requires
        a <= b <= v@.len(),
    ensures
        r == starts_command(trim_of(v@.subrange(a as int, b as int)), kw@),
{
    let (ta, tb) = trim_bounds(v, a, b);
    range_starts_command(v, ta, tb, kw)
}

/// Whether some piece of `v[a..b]` split at `sep`, trimmed, starts with `kw`
/// and a space.
fn piece_starts(v: &Vec<char>, a: usize, b: usize, sep: &Vec<char>, kw: &Vec<char>) -> (r: bool)
    requires
        a <= b <= v@.len(),
        sep@.len() > 0,
    ensures
        r == some_piece_starts(v@.subrange(a as int, b as int), sep@, kw@),
{
    let ghost s = v@.subrange(a as int, b as int);
    let mut start = a;
    let mut found = false;
    let ghost mut done: Seq<Seq<char>> = seq![];
    loop
        invariant
            a <= start <= b <= v@.len(),
            sep@.len() > 0,
            s == v@.subrange(a as int, b as int),
            split_by(s, sep@) == done + split_by(v@.subrange(start as int, b as int), sep@),
            found == (exists|i: int| 0 <= i < done.len() && starts_command(trim_of(#[trigger] done[i]), kw@)),
            !found,
        decreases b - start,
    {
        let ghost rest = v@.subrange(start as int, b as int);
        let mut j = start;
        while sep.len() <= b - j && !starts_with_at(v, j, sep)
            invariant
                start <= j <= b <= v@.len(),
                sep@.len() > 0,
                rest == v@.subrange(start as int, b as int),
                forall|k: int| 0 <= k < j - start ==> !has_prefix(#[trigger] rest.skip(k), sep@),
            decreases b - j,
        {
            proof {
                assert(rest.skip(j - start).take(sep@.len() as int) =~= v@.skip(j as int).take(sep@.len() as int));
            }
            j = j + 1;
        }
        let hit = sep.len() <= b - j;
        proof {
            if hit {
                assert(rest.skip(j - start).take(sep@.len() as int) =~= v@.skip(j as int).take(sep@.len() as int));
                lemma_find_sub(rest, sep@, j - start);
            } else {
                assert forall|k: int| j - start <= k <= rest.len() implies !has_prefix(#[trigger] rest.skip(k), sep@) by {}
                lemma_find_sub(rest, sep@, rest.len() as int);
                assert forall|k: int| 0 <= k < rest.len() implies !has_prefix(#[trigger] rest.skip(k), sep@) by {
                    if k >= j - start {
                    }
                }
            }
        }
        let end = if hit { j } else { b };
        let ok = trimmed_starts_command(v, start, end, kw);
        proof {
            let piece = v@.subrange(start as int, end as int);
            if hit {
                assert(rest.take(j - start) =~= piece);
                assert(rest.skip(j - start + sep@.len()) =~= v@.subrange(j + sep@.len(), b as int));
            } else {
                assert(rest =~= piece);
            }
            done = done.push(piece);
        }
        if ok {
            proof {
                let k = done.len() - 1;
                assert(done[k] == v@.subrange(start as int, end as int));
                assert(split_by(s, sep@)[k] == done[k]);
            }
            return true;
        }
        if !hit {
            proof {
                assert(split_by(s, sep@) =~= done);
            }
            return false;
        }
        start = j + sep.len();
    }
}

/// The bound `e` such that `v[a..e]` is `v[a..b]` with every trailing
/// occurrence of `p` removed.
fn strip_all_bound(v: &Vec<char>, a: usize, b: usize, p: &Vec<char>) -> (e: usize)
    requires
        a <= b <= v@.len(),
    ensures
        a <= e <= b,
        v@.subrange(a as int, e as int) == strip_all(v@.subrange(a as int, b as int), p@),
{
    let mut e = b;
    while p.len() > 0 && p.len() <= e - a && starts_with_at(v, e - p.len(), p)
        invariant
            a <= e <= b <= v@.len(),
            strip_all(v@.subrange(a as int, b as int), p@) == strip_all(
                v@.subrange(a as int, e as int),
                p@,
            ),
        decreases e,
    {
        proof {
            let s = v@.subrange(a as int, e as int);
            assert(s.skip(s.len() - p@.len()) =~= v@.skip(e - p@.len()).take(p@.len() as int));
            assert(s.take(s.len() - p@.len()) =~= v@.subrange(a as int, e - p@.len()));
        }
        e = e - p.len();
    }
    proof {
        let s = v@.subrange(a as int, e as int);
        if p@.len() > 0 && p@.len() <= e - a {
            assert(s.skip(s.len() - p@.len()) =~= v@.skip(e - p@.len()).take(p@.len() as int));
        }
    }
    e
}

/// Whether `kw` stands in command position in `v[ta..tb]`.
fn in_command_position_exec(v: &Vec<char>, ta: usize, tb: usize, kw: &str) -> (r: bool)
    requires
        ta <= tb <= v@.len(),
    ensures
        r == in_command_position(v@.subrange(ta as int, tb as int), kw@),
{
    let k = chars_of(kw);
    let s1 = chars_of("&& ");
    let s2 = chars_of("|| ");
    let s3 = chars_of("; ");
    proof {
        reveal_strlit("&& ");
        reveal_strlit("|| ");
        reveal_strlit("; ");
    }
    range_starts_command(v, ta, tb, &k) || piece_starts(v, ta, tb, &s1, &k) || piece_starts(
        v,
        ta,
        tb,
        &s2,
        &k,
    ) || piece_starts(v, ta, tb, &s3, &k)
}

/// Detects shell-level backgrounding that would hang the SSH channel: the
/// pattern's short description, or `None` for an ordinary foreground command.
pub fn detect_background_pattern(command: &str) -> (r: Option<&'static str>)
    ensures
        r matches Some(x) ==> background_pattern(command@) == Some(x@),
        r is None ==> background_pattern(command@) is None,
{
    let v = chars_of(command);
    let (ta, tb) = trim_bounds(&v, 0, v.len());
    assert(v@.subrange(0, v@.len() as int) =~= v@);
    if in_command_position_exec(&v, ta, tb, "nohup") {
        return Some("nohup");
    }
    if in_command_position_exec(&v, ta, tb, "setsid") {
        return Some("setsid");
    }
    let e0 = crate::text::trim_end_bound(&v, ta, tb);
    let e1 = strip_all_bound(&v, ta, e0, &chars_of("echo $!"));
    let semi = vec![';'];
    assert(semi@ =~= seq![';']);
    let e2 = strip_all_bound(&v, ta, e1, &semi);
    let e3 = strip_all_bound(&v, ta, e2, &chars_of("disown"));
    let e4 = strip_all_bound(&v, ta, e3, &semi);
    let e5 = crate::text::trim_end_bound(&v, ta, e4);
    let ghost tail = v@.subrange(ta as int, e5 as int);
    let ghost t = trim_of(command@);
    assert(t == v@.subrange(ta as int, tb as int));
    assert(v@.subrange(ta as int, e0 as int) == crate::text::trim_end_of(t));
    assert(tail == stripped_tail(trim_of(command@)));
    let amp = vec!['&'];
    let amp2 = vec!['&', '&'];
    let one = e5 - ta >= 1 && starts_with_at(&v, e5 - 1, &amp);
    let two = e5 - ta >= 2 && starts_with_at(&v, e5 - 2, &amp2);
    proof {
        if e5 - ta >= 1 {
            assert(tail.skip(tail.len() - 1) =~= v@.skip(e5 - 1).take(1));
        }
        if e5 - ta >= 2 {
            assert(tail.skip(tail.len() - 2) =~= v@.skip(e5 - 2).take(2));
        }
        assert(amp@ =~= seq!['&']);
        assert(amp2@ =~= seq!['&', '&']);
    }
    if one && !two {
        Some("trailing &")
    } else {
        None
    }
}

/// Default timeout for foreground commands, in milliseconds (2 minutes).
pub const DEFAULT_TIMEOUT_MS: u64 = 120_000;

/// Largest timeout for foreground commands, in milliseconds (10 minutes).
pub const MAX_TIMEOUT_MS: u64 = 600_000;

/// Timeout for the background wrapper that reports the PID, in milliseconds.
pub const BACKGROUND_TIMEOUT_MS: u64 = 10_000;

/// Stdout longer than this many bytes is saved to disk instead of returned.
pub const MAX_INLINE_OUTPUT: usize = 131_072;

/// Lines from the start kept in the summary of saved output.
pub const SUMMARY_HEAD_LINES: usize = 150;

/// Lines from the end kept in the summary of saved output.
pub const SUMMARY_TAIL_LINES: usize = 50;

/// The timeout of a foreground command: the requested one (default two
/// minutes), capped at ten minutes.
pub fn foreground_timeout(timeout: Option<u64>) -> (r: u64)
    ensures
        r == match timeout {
            Some(t) => if t < MAX_TIMEOUT_MS { t } else { MAX_TIMEOUT_MS },
            None => DEFAULT_TIMEOUT_MS,
        },
{
    let t = match timeout {
        Some(t) => t,
        None => DEFAULT_TIMEOUT_MS,
    };
    if t < MAX_TIMEOUT_MS {
        t
    } else {
        MAX_TIMEOUT_MS
    }
}

/// The shell text that starts `command` detached from the session, its
/// output going to `log_file`, and prints the PID: with `setsid` where it
/// exists, else with `nohup`.
pub open spec fn background_text(command: Seq<char>, log_file: Seq<char>) -> Seq<char> {
    let cmd = shell_escaped(command);
    let log = shell_escaped(log_file);
    "if command -v setsid >/dev/null 2>&1; then setsid sh -c "@ + cmd + " > "@ + log
        + " 2>&1 < /dev/null & else nohup sh -c "@ + cmd + " > "@ + log
        + " 2>&1 < /dev/null & fi; echo $!"@
}

/// Builds the detached launch of `command` with output to `log_file`.
pub fn background_command(command: &str, log_file: &str) -> (r: String)
    ensures
        r@ == background_text(command@, log_file@),
{
    let cmd = shell_escape(command);
    let log = shell_escape(log_file);
    let mut r = String::new();
    push_str(&mut r, "if command -v setsid >/dev/null 2>&1; then setsid sh -c ");
    push_str(&mut r, cmd.as_str());
    push_str(&mut r, " > ");
    push_str(&mut r, log.as_str());
    push_str(&mut r, " 2>&1 < /dev/null & else nohup sh -c ");
    push_str(&mut r, cmd.as_str());
    push_str(&mut r, " > ");
    push_str(&mut r, log.as_str());
    push_str(&mut r, " 2>&1 < /dev/null & fi; echo $!");
    r
}

/// A byte count in SI units: tenths of megabytes from 1 MB up, whole
/// kilobytes below.
pub open spec fn size_text(bytes: nat) -> Seq<char> {
    if bytes >= 1_000_000 {
        let tenths = bytes / 100_000;
        decimal(tenths / 10) + seq!['.'] + decimal(tenths % 10) + " MB"@
    } else {
        decimal(bytes / 1000) + " KB"@
    }
}

/// Each of `ls` followed by a newline.
pub open spec fn lines_block(ls: Seq<Seq<char>>) -> Seq<char>
    decreases ls.len(),
{
    if ls.len() == 0 {
        seq![]
    } else {
        lines_block(ls.drop_last()) + ls.last() + seq!['\n']
    }
}

/// The summary that replaces output too large to return: its size and line
/// count (`byte_len` is its length in bytes), where it was saved, then either its first 150 and last 50 lines
/// with the number left out, or (for few, long lines) all of it.
pub open spec fn output_summary_text(stdout: Seq<char>, byte_len: nat, file_path: Seq<char>) -> Seq<char> {
    let ls = lines_of(stdout);
    let n = ls.len();
    let head = "[Output too large for context ("@ + size_text(byte_len) + ", "@
        + decimal(n) + " lines)]\n"@ + "Full output saved to: "@ + file_path + seq!['\n'];
    if n > 200 {
        head + "\n--- First 150 lines ---\n"@ + lines_block(ls.take(150)) + "\n... ("@ + decimal(
            (n - 200) as nat,
        ) + " lines omitted) ...\n"@ + "\n--- Last 50 lines ---\n"@ + lines_block(ls.skip(n - 50))
    } else {
        head + seq!['\n'] + stdout
    }
}

fn push_lines(
    out: &mut String,
    v: &Vec<char>,
    bounds: &Vec<(usize, usize)>,
    from: usize,
    to: usize,
    ls: Ghost<Seq<Seq<char>>>,
)
    requires
        from <= to <= bounds@.len(),
        bounds@.len() == ls@.len(),
        forall|j: int|
            0 <= j < bounds@.len() ==> {
                &&& (#[trigger] bounds@[j]).0 <= bounds@[j].1 <= v@.len()
                &&& ls@[j] == v@.subrange(bounds@[j].0 as int, bounds@[j].1 as int)
            },
    ensures
        final(out)@ == old(out)@ + lines_block(ls@.subrange(from as int, to as int)),
{
    let mut i = from;
    assert(ls@.subrange(from as int, from as int) =~= Seq::<Seq<char>>::empty());
    while i < to
        invariant
            from <= i <= to <= bounds@.len(),
            bounds@.len() == ls@.len(),
            forall|j: int|
                0 <= j < bounds@.len() ==> {
                    &&& (#[trigger] bounds@[j]).0 <= bounds@[j].1 <= v@.len()
                    &&& ls@[j] == v@.subrange(bounds@[j].0 as int, bounds@[j].1 as int)
                },
            out@ == old(out)@ + lines_block(ls@.subrange(from as int, i as int)),
        decreases to - i,
    {
        let (a, b) = bounds[i];
        push_range(out, v, a, b);
        crate::text::push_char(out, '\n');
        proof {
            let t = ls@.subrange(from as int, i + 1);
            assert(t.drop_last() =~= ls@.subrange(from as int, i as int));
            assert(t.last() == ls@[i as int]);
        }
        i = i + 1;
        assert(out@ =~= old(out)@ + lines_block(ls@.subrange(from as int, i as int)));
    }
}

/// Builds the summary of output saved to `file_path` in place of `stdout`.
pub fn build_output_summary(stdout: &str, file_path: &str) -> (r: String)
    ensures
        r@ == output_summary_text(stdout@, stdout.len() as nat, file_path@),
{
    let v = chars_of(stdout);
    let bounds = line_bounds(&v);
    let ghost ls = lines_of(stdout@);
    let n = bounds.len();
    let total_bytes = stdout.len();
    let mut out = String::new();
    push_str(&mut out, "[Output too large for context (");
    let ghost start = out@;
    if total_bytes >= 1_000_000 {
        let tenths = total_bytes / 100_000;
        push_decimal(&mut out, (tenths / 10) as u64);
        crate::text::push_char(&mut out, '.');
        push_decimal(&mut out, (tenths % 10) as u64);
        push_str(&mut out, " MB");
        assert(out@ =~= start + size_text(stdout.len() as nat));
    } else {
        push_decimal(&mut out, (total_bytes / 1000) as u64);
        push_str(&mut out, " KB");
        assert(out@ =~= start + size_text(stdout.len() as nat));
    }
    push_str(&mut out, ", ");
    push_decimal(&mut out, n as u64);
    push_str(&mut out, " lines)]\n");
    assert(out@ =~= "[Output too large for context ("@ + size_text(stdout.len() as nat) + ", "@
        + decimal(n as nat) + " lines)]\n"@);
    push_str(&mut out, "Full output saved to: ");
    push_str(&mut out, file_path);
    crate::text::push_char(&mut out, '\n');
    let ghost head = out@;
    if n > SUMMARY_HEAD_LINES + SUMMARY_TAIL_LINES {
        push_str(&mut out, "\n--- First 150 lines ---\n");
        push_lines(&mut out, &v, &bounds, 0, SUMMARY_HEAD_LINES, Ghost(ls));
        push_str(&mut out, "\n... (");
        push_decimal(&mut out, (n - SUMMARY_HEAD_LINES - SUMMARY_TAIL_LINES) as u64);
        push_str(&mut out, " lines omitted) ...\n");
        push_str(&mut out, "\n--- Last 50 lines ---\n");
        push_lines(&mut out, &v, &bounds, n - SUMMARY_TAIL_LINES, n, Ghost(ls));
        assert(ls.subrange(0, 150) =~= ls.take(150));
        assert(ls.subrange(n - 50, n as int) =~= ls.skip(n - 50));
    } else {
        crate::text::push_char(&mut out, '\n');
        push_str(&mut out, stdout);
    }
    out
}

/// The largest char boundary of `bytes` that is at most `e`.
pub open spec fn boundary_at_most(bytes: Seq<u8>, e: int) -> int
    decreases e,
{
    if e <= 0 || is_char_boundary(bytes, e) {
        if e <= 0 { 0 } else { e }
    } else {
        boundary_at_most(bytes, e - 1)
    }
}

/// The note appended to output cut short.
pub open spec fn truncation_note() -> Seq<char> {
    "\n\n[Output truncated \u{2014} failed to save to disk]"@
}

/// Cuts `stdout` to at most `MAX_INLINE_OUTPUT` bytes, at a char boundary,
/// and appends a note saying so; used when saving to disk failed.
pub fn truncate_inline(stdout: &str) -> (r: String)
    ensures
        r@.len() >= truncation_note().len(),
        r@.skip(r@.len() - truncation_note().len()) == truncation_note(),
        encode_utf8(r@.take(r@.len() - truncation_note().len())) == encode_utf8(stdout@).take(
            boundary_at_most(
                encode_utf8(stdout@),
                if stdout.len() < MAX_INLINE_OUTPUT {
                    stdout.len() as int
                } else {
                    MAX_INLINE_OUTPUT as int
                },
            ),
        ),
{
    let len = stdout.len();
    let mut end = if len < MAX_INLINE_OUTPUT { len } else { MAX_INLINE_OUTPUT };
    let ghost bytes = encode_utf8(stdout@);
    let ghost start = end as int;
    proof {
        vstd::utf8::encode_utf8_valid_utf8(stdout@);
    }
    while end > 0 && !stdout.is_char_boundary(end)
        invariant
            end <= start,
            boundary_at_most(bytes, start) == boundary_at_most(bytes, end as int),
            bytes == encode_utf8(stdout@),
            vstd::utf8::valid_utf8(bytes),
        decreases end,
    {
        end = end - 1;
    }
    assert(is_char_boundary(bytes, end as int));
    assert(boundary_at_most(bytes, end as int) == end);
    let (prefix, _) = stdout.split_at(end);
    let mut s = prefix.to_owned();
    push_str(&mut s, "\n\n[Output truncated \u{2014} failed to save to disk]");
    assert(s@.take(s@.len() - truncation_note().len()) =~= prefix@);
    assert(s@.skip(s@.len() - truncation_note().len()) =~= truncation_note());
    s
}

} // verus!
