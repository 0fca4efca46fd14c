//! Shell quoting and path helpers.
use vstd::prelude::*;

use crate::text::{chars_of, has_prefix, push_char, push_decimal, push_range, push_str};
use crate::text::{decimal, find_char, find_from, lines_of, line_bounds};

verus! {

/// What one character of the input becomes inside single quotes: itself, or
/// for a single quote the sequence `'\''` (close, escaped quote, reopen).
pub open spec fn quote_piece(c: char) -> Seq<char> {
    if c == '\'' {
        seq!['\'', '\\', '\'', '\'']
    } else {
        seq![c]
    }
}

/// The quoted form of `s` without the enclosing quotes.
pub open spec fn quoted_body(s: Seq<char>) -> Seq<char>
    decreases s.len(),
{
    if s.len() == 0 {
        seq![]
    } else {
        quote_piece(s[0]) + quoted_body(s.drop_first())
    }
}

/// `s` as one single-quoted POSIX shell word.
pub open spec fn shell_escaped(s: Seq<char>) -> Seq<char> {
    seq!['\''] + quoted_body(s) + seq!['\'']
}

/// `Some(s + r)` where `o` is `Some(r)`, else `None`.
pub open spec fn prepend(s: Seq<char>, o: Option<Seq<char>>) -> Option<Seq<char>> {
    match o {
        Some(r) => Some(s + r),
        None => None,
    }
}

/// The value a POSIX shell gives a word built from single-quoted runs and
/// backslash escapes, read from `w` with `quoted` telling whether a single
/// quote is open. Inside single quotes every character stands for itself up
/// to the closing quote; outside, a backslash keeps the next character
/// (a backslash-newline pair is removed). A word holding any other unquoted
/// character, or left with an open quote, has no value in this reading.
pub open spec fn shell_read(w: Seq<char>, quoted: bool) -> Option<Seq<char>>
    decreases w.len(),
{
    if w.len() == 0 {
        if quoted { None } else { Some(seq![]) }
    } else if quoted {
        if w[0] == '\'' {
            shell_read(w.drop_first(), false)
        } else {
            prepend(seq![w[0]], shell_read(w.drop_first(), true))
        }
    } else if w[0] == '\'' {
        shell_read(w.drop_first(), true)
    } else if w[0] == '\\' && w.len() >= 2 {
        if w[1] == '\n' {
            shell_read(w.skip(2), false)
        } else {
            prepend(seq![w[1]], shell_read(w.skip(2), false))
        }
    } else {
        None
    }
}

/// The value of the shell word `w`.
pub open spec fn shell_word_value(w: Seq<char>) -> Option<Seq<char>> {
    shell_read(w, false)
}

proof fn lemma_quoted_body_push(s: Seq<char>, c: char)
    ensures
        quoted_body(s.push(c)) == quoted_body(s) + quote_piece(c),
    decreases s.len(),
{
    if s.len() == 0 {
        assert(s.push(c).drop_first() =~= Seq::<char>::empty());
        assert(quoted_body(Seq::<char>::empty()) == Seq::<char>::empty());
        assert(quoted_body(s.push(c)) =~= quote_piece(c));
        assert(quoted_body(s.push(c)) =~= quoted_body(s) + quote_piece(c));
    } else {
        assert(s.push(c).drop_first() =~= s.drop_first().push(c));
        lemma_quoted_body_push(s.drop_first(), c);
        assert(quoted_body(s.push(c)) =~= quoted_body(s) + quote_piece(c));
    }
}

proof fn lemma_read_quoted_body(s: Seq<char>, rest: Seq<char>)
    ensures
        shell_read(quoted_body(s) + rest, true) == prepend(s, shell_read(rest, true)),
    decreases s.len(),
{
    if s.len() == 0 {
        assert(quoted_body(s) == Seq::<char>::empty());
        assert(quoted_body(s) + rest =~= rest);
        match shell_read(rest, true) {
            Some(r) => {
                assert(s + r =~= r);
            },
            None => {},
        }
    } else {
        let c = s[0];
        let t = s.drop_first();
        let x = quoted_body(t) + rest;
        lemma_read_quoted_body(t, rest);
        let w = quoted_body(s) + rest;
        assert(w =~= quote_piece(c) + x);
        if c == '\'' {
            let w1 = w.drop_first();
            assert(w[0] == '\'');
            assert(shell_read(w, true) == shell_read(w1, false));
            assert(w1 =~= seq!['\\', '\'', '\''] + x);
            assert(w1[0] == '\\' && w1[1] == '\'');
            assert(shell_read(w1, false) == prepend(seq!['\''], shell_read(w1.skip(2), false)));
            assert(w1.skip(2) =~= seq!['\''] + x);
            assert((seq!['\''] + x).drop_first() =~= x);
            assert(shell_read(w1.skip(2), false) == shell_read(x, true));
        } else {
            assert(w[0] == c);
            assert(w.drop_first() =~= x);
            assert(shell_read(w, true) == prepend(seq![c], shell_read(x, true)));
        }
        match shell_read(rest, true) {
            Some(r) => {
                assert(seq![c] + (t + r) =~= s + r);
            },
            None => {},
        }
    }
}

/// Quoting with `shell_escape` is undone exactly by the shell: the word it
/// produces has the input as its value, so two inputs that quote alike are
/// equal.
pub proof fn lemma_shell_escape_reads_back(a: Seq<char>, b: Seq<char>)
    ensures
        shell_word_value(shell_escaped(a)) == Some(a),
        shell_escaped(a) == shell_escaped(b) ==> a == b,
{
    lemma_escaped_value(a);
    lemma_escaped_value(b);
}

proof fn lemma_escaped_value(a: Seq<char>)
    ensures
        shell_read(shell_escaped(a), false) == Some(a),
{
    let w = shell_escaped(a);
    let q = seq!['\''];
    assert(w[0] == '\'');
    assert(w.drop_first() =~= quoted_body(a) + q);
    assert(shell_read(w, false) == shell_read(w.drop_first(), true));
    lemma_read_quoted_body(a, q);
    assert(q.drop_first() =~= Seq::<char>::empty());
    assert(shell_read(q, true) == shell_read(q.drop_first(), false));
    assert(shell_read(Seq::<char>::empty(), false) == Some(Seq::<char>::empty()));
    assert(a + Seq::<char>::empty() =~= a);
}

/// Appends the quoted form of `v[..]` (without enclosing quotes) to `out`.
fn push_quoted_body(out: &mut String, v: &Vec<char>)
    ensures
        final(out)@ == old(out)@ + quoted_body(v@),
{
    let mut i: usize = 0;
    while i < v.len()
        invariant
            i <= v@.len(),
            out@ == old(out)@ + quoted_body(v@.take(i as int)),
        decreases v@.len() - i,
    {
        let c = v[i];
        if c == '\'' {
            push_char(out, '\'');
            push_char(out, '\\');
            push_char(out, '\'');
            push_char(out, '\'');
        } else {
            push_char(out, c);
        }
        proof {
            assert(v@.take(i + 1) =~= v@.take(i as int).push(c));
            lemma_quoted_body_push(v@.take(i as int), c);
        }
        i = i + 1;
        assert(out@ =~= old(out)@ + quoted_body(v@.take(i as int)));
    }
    assert(v@.take(i as int) =~= v@);
}

/// Escapes a string for safe interpolation into a POSIX shell command: wraps
/// it in single quotes, with each embedded `'` written as `'\''`.
pub fn shell_escape(s: &str) -> (r: String)
    ensures
        r@ == shell_escaped(s@),
{
    let v = chars_of(s);
    let mut r = String::new();
    push_char(&mut r, '\'');
    push_quoted_body(&mut r, &v);
    push_char(&mut r, '\'');
    assert(r@ =~= shell_escaped(s@));
    r
}

/// The characters `$HOME`.
pub open spec fn home_var() -> Seq<char> {
    seq!['$', 'H', 'O', 'M', 'E']
}

/// A remote path as a shell word that keeps tilde expansion working: `~` is
/// `$HOME`, `~/x` is `$HOME/` followed by `x` quoted, and any other path is
/// quoted whole.
pub open spec fn remote_path_word(p: Seq<char>) -> Seq<char> {
    if p == seq!['~'] {
        home_var()
    } else if has_prefix(p, seq!['~', '/']) {
        home_var() + seq!['/'] + shell_escaped(p.skip(2))
    } else {
        shell_escaped(p)
    }
}

fn push_home(out: &mut String)
    ensures
        final(out)@ == old(out)@ + home_var(),
{
    push_char(out, '$');
    push_char(out, 'H');
    push_char(out, 'O');
    push_char(out, 'M');
    push_char(out, 'E');
    assert(out@ =~= old(out)@ + home_var());
}

/// Shell-escapes a remote path, writing `~` as `$HOME` so that single quotes
/// do not stop the shell from expanding it.
pub fn shell_escape_remote_path(path: &str) -> (r: String)
    ensures
        r@ == remote_path_word(path@),
{
    let v = chars_of(path);
    let mut r = String::new();
    if v.len() == 1 && v[0] == '~' {
        push_home(&mut r);
        assert(v@ =~= seq!['~']);
        assert(r@ =~= home_var());
    } else if v.len() >= 2 && v[0] == '~' && v[1] == '/' {
        assert(v@.take(2) =~= seq!['~', '/']);
        assert(v@ != seq!['~']);
        push_home(&mut r);
        push_char(&mut r, '/');
        push_char(&mut r, '\'');
        let tail = crate::text::string_of_range(&v, 2, v.len());
        let tv = chars_of(tail.as_str());
        push_quoted_body(&mut r, &tv);
        push_char(&mut r, '\'');
        assert(tv@ =~= path@.skip(2));
        assert(r@ =~= remote_path_word(path@));
    } else {
        assert(!has_prefix(path@, seq!['~', '/']) && path@ != seq!['~']) by {
            if has_prefix(path@, seq!['~', '/']) {
                assert(path@.take(2)[0] == '~' && path@.take(2)[1] == '/');
            }
            if path@ == seq!['~'] {
                assert(v@.len() == 1 && v@[0] == '~');
            }
        }
        r = shell_escape(path);
    }
    r
}

/// `p` resolved against `base`: kept as it is when it starts with `/` or `~`,
/// otherwise joined to `base` the way `Path::join` does, with a `/` between
/// them unless `base` is empty or already ends with one.
pub open spec fn normalized_path(p: Seq<char>, base: Seq<char>) -> Seq<char> {
    if p.len() > 0 && (p[0] == '/' || p[0] == '~') {
        p
    } else if base.len() == 0 || base.last() == '/' {
        base + p
    } else {
        base + seq!['/'] + p
    }
}

/// Normalizes a path relative to the base remote path.
pub fn normalize_remote_path(path: &str, base_path: &str) -> (r: String)
    ensures
        r@ == normalized_path(path@, base_path@),
{
    let p = chars_of(path);
    let b = chars_of(base_path);
    let mut r = String::new();
    if p.len() > 0 && (p[0] == '/' || p[0] == '~') {
        push_str(&mut r, path);
    } else {
        push_str(&mut r, base_path);
        if !(b.len() == 0 || b[b.len() - 1] == '/') {
            push_char(&mut r, '/');
        }
        push_str(&mut r, path);
    }
    assert(r@ =~= normalized_path(path@, base_path@));
    r
}

/// `s` right-aligned in a field of six characters.
pub open spec fn pad6(s: Seq<char>) -> Seq<char> {
    if s.len() >= 6 {
        s
    } else {
        Seq::new((6 - s.len()) as nat, |i: int| ' ') + s
    }
}

/// One numbered line: the number right-aligned in six columns, an arrow,
/// then the line.
pub open spec fn numbered_line(n: nat, line: Seq<char>) -> Seq<char> {
    pad6(decimal(n)) + seq!['\u{2192}'] + line
}

/// The lines `ls`, numbered from `offset + 1` and joined with newlines.
pub open spec fn numbered_lines(ls: Seq<Seq<char>>, offset: nat) -> Seq<char>
    decreases ls.len(),
{
    if ls.len() == 0 {
        seq![]
    } else if ls.len() == 1 {
        numbered_line(offset + 1, ls[0])
    } else {
        numbered_lines(ls.drop_last(), offset) + seq!['\n'] + numbered_line(
            offset + ls.len(),
            ls.last(),
        )
    }
}

fn push_padded_number(out: &mut String, n: u64)
    ensures
        final(out)@ == old(out)@ + pad6(decimal(n as nat)),
{
    let mut digits = String::new();
    push_decimal(&mut digits, n);
    let dv = chars_of(digits.as_str());
    let mut k = dv.len();
    while k < 6
        invariant
            dv@.len() <= k <= 6 || (k == dv@.len() && k >= 6),
            dv@ == decimal(n as nat),
            out@ == old(out)@ + Seq::new((k - dv@.len()) as nat, |i: int| ' '),
        decreases 6 - k,
    {
        push_char(out, ' ');
        k = k + 1;
        assert(out@ =~= old(out)@ + Seq::new((k - dv@.len()) as nat, |i: int| ' '));
    }
    push_str(out, digits.as_str());
    assert(out@ =~= old(out)@ + pad6(decimal(n as nat)));
}

/// Formats file content with line numbers: each line of `content` (as
/// `str::lines` splits it) is numbered from `offset + 1`.
pub fn format_with_line_numbers(content: &str, offset: usize) -> (r: String)
    requires
        offset + lines_of(content@).len() <= u64::MAX,
    ensures
        r@ == numbered_lines(lines_of(content@), offset as nat),
{
    let v = chars_of(content);
    let bounds = line_bounds(&v);
    let ghost ls = lines_of(content@);
    let mut result = String::new();
    let mut i: usize = 0;
    while i < bounds.len()
        invariant
            v@ == content@,
            ls == lines_of(v@),
            bounds@.len() == ls.len(),
            offset + ls.len() <= u64::MAX,
            forall|j: int|
                0 <= j < bounds@.len() ==> {
                    &&& (#[trigger] bounds@[j]).0 <= bounds@[j].1 <= v@.len()
                    &&& ls[j] == v@.subrange(bounds@[j].0 as int, bounds@[j].1 as int)
                },
            i <= bounds@.len(),
            result@ == numbered_lines(ls.take(i as int), offset as nat),
        decreases bounds@.len() - i,
    {
        if i > 0 {
            push_char(&mut result, '\n');
        }
        let n = (offset as u64) + (i as u64) + 1;
        push_padded_number(&mut result, n);
        push_char(&mut result, '\u{2192}');
        let (a, b) = bounds[i];
        push_range(&mut result, &v, a, b);
        proof {
            let t = ls.take(i + 1);
            assert(t.drop_last() =~= ls.take(i as int));
            assert(t.last() == ls[i as int]);
            if i == 0 {
                assert(ls.take(0) =~= Seq::<Seq<char>>::empty());
            }
        }
        i = i + 1;
        assert(result@ =~= numbered_lines(ls.take(i as int), offset as nat));
    }
    assert(ls.take(i as int) =~= ls);
    result
}

/// The non-empty `/`-separated components of a path.
pub open spec fn components(s: Seq<char>) -> Seq<Seq<char>>
    decreases s.len(),
{
    if s.len() == 0 {
        seq![]
    } else {
        let k = find_char(s, '/');
        let rest = if k < s.len() { components(s.skip(k as int + 1)) } else { seq![] };
        if k == 0 {
            rest
        } else {
            seq![s.take(k as int)] + rest
        }
    }
}

/// Whether a path starts at the root.
pub open spec fn rooted(s: Seq<char>) -> bool {
    s.len() > 0 && s[0] == '/'
}

/// Whether `full` lies within `base`, as `Path::starts_with` decides it: both
/// rooted or both relative, and the components of `base` a prefix of those
/// of `full`.
pub open spec fn path_within(base: Seq<char>, full: Seq<char>) -> bool {
    &&& rooted(base) == rooted(full)
    &&& components(base).len() <= components(full).len()
    &&& components(full).take(components(base).len() as int) == components(base)
}

/// The bounds of the components of `v[from..]`.
fn component_bounds(v: &Vec<char>) -> (r: Vec<(usize, usize)>)
    ensures
        r@.len() == components(v@).len(),
        forall|i: int|
            0 <= i < r@.len() ==> {
                &&& (#[trigger] r@[i]).0 <= r@[i].1 <= v@.len()
                &&& components(v@)[i] == v@.subrange(r@[i].0 as int, r@[i].1 as int)
            },
{
    let mut r: Vec<(usize, usize)> = Vec::new();
    let mut i: usize = 0;
    let n = v.len();
    assert(v@.skip(0) =~= v@);
    assert(r@.map_values(|p: (usize, usize)| v@.subrange(p.0 as int, p.1 as int)) =~= seq![]);
    while i < n
        invariant
            n == v@.len(),
            i <= n,
            components(v@) == r@.map_values(|p: (usize, usize)| v@.subrange(p.0 as int, p.1 as int))
                + components(v@.skip(i as int)),
            forall|j: int| 0 <= j < r@.len() ==> (#[trigger] r@[j]).0 <= r@[j].1 <= v@.len(),
        decreases n - i,
    {
        let j = find_from(v, i, n, '/');
        let ghost rest = v@.skip(i as int);
        assert(v@.subrange(i as int, n as int) =~= rest);
        let ghost old_r = r@;
        if j > i {
            r.push((i, j));
        }
        proof {
            assert(rest.take(j - i) =~= v@.subrange(i as int, j as int));
            if j < n {
                assert(rest.skip(j - i + 1) =~= v@.skip(j + 1));
            } else {
                assert(v@.skip(j as int) =~= Seq::<char>::empty());
            }
            if j > i {
                assert(r@.map_values(|p: (usize, usize)| v@.subrange(p.0 as int, p.1 as int))
                    =~= old_r.map_values(|p: (usize, usize)| v@.subrange(p.0 as int, p.1 as int))
                    + seq![v@.subrange(i as int, j as int)]);
            }
        }
        i = if j < n { j + 1 } else { j };
    }
    assert(v@.skip(i as int) =~= Seq::<char>::empty());
    assert(components(v@) =~= r@.map_values(|p: (usize, usize)| v@.subrange(p.0 as int, p.1 as int)));
    r
}

/// Whether `v[a1..b1]` and `w[a2..b2]` hold the same characters.
fn ranges_equal(v: &Vec<char>, a1: usize, b1: usize, w: &Vec<char>, a2: usize, b2: usize) -> (r: bool)
    requires
        a1 <= b1 <= v@.len(),
        a2 <= b2 <= w@.len(),
    ensures
        r == (v@.subrange(a1 as int, b1 as int) == w@.subrange(a2 as int, b2 as int)),
{
    if b1 - a1 != b2 - a2 {
        assert(v@.subrange(a1 as int, b1 as int).len() != w@.subrange(a2 as int, b2 as int).len());
        return false;
    }
    let mut k: usize = 0;
    while k < b1 - a1
        invariant
            a1 <= b1 <= v@.len(),
            a2 <= b2 <= w@.len(),
            b1 - a1 == b2 - a2,
            k <= b1 - a1,
            forall|t: int| 0 <= t < k ==> #[trigger] v@.subrange(a1 as int, b1 as int)[t] == w@.subrange(a2 as int, b2 as int)[t],
        decreases b1 - a1 - k,
    {
        if v[a1 + k] != w[a2 + k] {
            assert(v@.subrange(a1 as int, b1 as int)[k as int] != w@.subrange(a2 as int, b2 as int)[k as int]);
            return false;
        }
        k = k + 1;
    }
    assert(v@.subrange(a1 as int, b1 as int) =~= w@.subrange(a2 as int, b2 as int));
    true
}

/// A path that resolved outside the base directory.
#[derive(Debug, Clone)]
pub struct PathTraversal {
    pub relative: String,
}

impl PathTraversal {
    /// A human-readable description of the rejection.
    pub fn message(&self) -> (r: String)
        ensures
            r@ == "Path traversal rejected: '"@ + self.relative@ + "' resolves outside base directory"@,
    {
        let mut r = String::new();
        push_str(&mut r, "Path traversal rejected: '");
        push_str(&mut r, self.relative.as_str());
        push_str(&mut r, "' resolves outside base directory");
        r
    }
}

/// Checks that `relative`, joined to the base directory and resolved, stays
/// within it. `canon_base` and `canon_full` are the canonical forms of the
/// base directory and of the joined path (with `..` and symlinks resolved);
/// the path is accepted exactly when the base's components are a prefix of
/// the full path's, and then its canonical form is returned.
pub fn validate_path_within(canon_base: &str, canon_full: &str, relative: &str) -> (r: Result<String, PathTraversal>)
    ensures
        match r {
            Ok(p) => path_within(canon_base@, canon_full@) && p@ == canon_full@,
            Err(e) => !path_within(canon_base@, canon_full@) && e.relative@ == relative@,
        },
{
    let b = chars_of(canon_base);
    let f = chars_of(canon_full);
    let rb = b.len() > 0 && b[0] == '/';
    let rf = f.len() > 0 && f[0] == '/';
    let cb = component_bounds(&b);
    let cf = component_bounds(&f);
    let mut ok = rb == rf && cb.len() <= cf.len();
    if ok {
        let mut i: usize = 0;
        let mut same = true;
        while i < cb.len() && same
            invariant
                cb@.len() <= cf@.len(),
                cb@.len() == components(b@).len(),
                cf@.len() == components(f@).len(),
                forall|j: int|
                    0 <= j < cb@.len() ==> {
                        &&& (#[trigger] cb@[j]).0 <= cb@[j].1 <= b@.len()
                        &&& components(b@)[j] == b@.subrange(cb@[j].0 as int, cb@[j].1 as int)
                    },
                forall|j: int|
                    0 <= j < cf@.len() ==> {
                        &&& (#[trigger] cf@[j]).0 <= cf@[j].1 <= f@.len()
                        &&& components(f@)[j] == f@.subrange(cf@[j].0 as int, cf@[j].1 as int)
                    },
                i <= cb@.len(),
                forall|j: int| 0 <= j < i ==> components(b@)[j] == components(f@)[j],
                !same ==> i < cb@.len() && components(b@)[i as int] != components(f@)[i as int],
            decreases cb@.len() - i, if same { 1int } else { 0int },
        {
            let (a1, b1) = cb[i];
            let (a2, b2) = cf[i];
            same = ranges_equal(&b, a1, b1, &f, a2, b2);
            if same {
                i = i + 1;
            }
        }
        proof {
            if same {
                assert(components(f@).take(components(b@).len() as int) =~= components(b@));
            } else {
                assert(components(f@).take(components(b@).len() as int)[i as int] != components(b@)[i as int]);
            }
        }
        ok = same;
    }
    if ok {
        Ok(canon_full.to_owned())
    } else {
        Err(PathTraversal { relative: relative.to_owned() })
    }
}

} // verus!
