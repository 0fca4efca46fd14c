//! System facts captured from a remote server, their parse from the probe
//! script's output, and the comparison of two captures.
use vstd::prelude::*;

use crate::text::{chars_of, find_char, find_from, join, line_bounds, lines_of, push_str, range_is, string_of_range, strip_cr, trim_bounds, trim_of};

verus! {

/// Cached system information collected from a remote server.
#[derive(Debug, Clone, PartialEq)]
pub struct SystemMetadata {
    pub os: Option<String>,
    pub distro: Option<String>,
    pub arch: Option<String>,
    pub shell: Option<String>,
    pub package_manager: Option<String>,
    pub collected_at: Option<u64>,
}

/// The fields of a `SystemMetadata`, over plain values.
pub ghost struct MetadataSpec {
    pub os: Option<Seq<char>>,
    pub distro: Option<Seq<char>>,
    pub arch: Option<Seq<char>>,
    pub shell: Option<Seq<char>>,
    pub package_manager: Option<Seq<char>>,
    pub collected_at: Option<u64>,
}

/// The view of an optional string.
pub open spec fn opt_view(o: Option<String>) -> Option<Seq<char>> {
    match o {
        Some(s) => Some(s@),
        None => None,
    }
}

impl View for SystemMetadata {
    type V = MetadataSpec;

    open spec fn view(&self) -> MetadataSpec {
        MetadataSpec {
            os: opt_view(self.os),
            distro: opt_view(self.distro),
            arch: opt_view(self.arch),
            shell: opt_view(self.shell),
            package_manager: opt_view(self.package_manager),
            collected_at: self.collected_at,
        }
    }
}

impl Default for SystemMetadata {
    fn default() -> (r: Self)
        ensures
            r@ == (MetadataSpec {
                os: None,
                distro: None,
                arch: None,
                shell: None,
                package_manager: None,
                collected_at: None,
            }),
    {
        SystemMetadata {
            os: None,
            distro: None,
            arch: None,
            shell: None,
            package_manager: None,
            collected_at: None,
        }
    }
}

/// A copy of an optional string.
pub fn copy_opt(o: &Option<String>) -> (r: Option<String>)
    ensures
        opt_view(r) == opt_view(*o),
{
    match o {
        Some(s) => Some(s.clone()),
        None => None,
    }
}

/// Whether two optional strings are equal.
pub fn opt_eq(a: &Option<String>, b: &Option<String>) -> (r: bool)
    ensures
        r == (opt_view(*a) == opt_view(*b)),
{
    match (a, b) {
        (Some(x), Some(y)) => *x == *y,
        (None, None) => true,
        _ => false,
    }
}

impl SystemMetadata {
    /// A field-for-field copy.
    pub fn copy(&self) -> (r: Self)
        ensures
            r@ == self@,
    {
        SystemMetadata {
            os: copy_opt(&self.os),
            distro: copy_opt(&self.distro),
            arch: copy_opt(&self.arch),
            shell: copy_opt(&self.shell),
            package_manager: copy_opt(&self.package_manager),
            collected_at: self.collected_at,
        }
    }

    /// A copy with `collected_at` cleared, for output where the timestamp is
    /// internal bookkeeping.
    pub fn without_timestamp(&self) -> (r: Self)
        ensures
            r@ == (MetadataSpec { collected_at: None, ..self@ }),
    {
        SystemMetadata {
            os: copy_opt(&self.os),
            distro: copy_opt(&self.distro),
            arch: copy_opt(&self.arch),
            shell: copy_opt(&self.shell),
            package_manager: copy_opt(&self.package_manager),
            collected_at: None,
        }
    }
}

/// Metadata with every field absent.
pub open spec fn no_metadata() -> MetadataSpec {
    MetadataSpec {
        os: None,
        distro: None,
        arch: None,
        shell: None,
        package_manager: None,
        collected_at: None,
    }
}

/// What one `KEY=VALUE` line of probe output does to `m`. The line is cut at
/// its first `=`; key and value are trimmed. A line without `=`, with an
/// empty value, or with an unknown key changes nothing; `ARCH`, `OS`,
/// `DISTRO`, `SHELL` and `PKG_MANAGER` set their field.
pub open spec fn apply_line(m: MetadataSpec, line: Seq<char>) -> MetadataSpec {
    let eq = find_char(line, '=');
    if eq >= line.len() {
        m
    } else {
        let key = trim_of(line.take(eq as int));
        let value = trim_of(line.skip(eq as int + 1));
        if value.len() == 0 {
            m
        } else if key == "ARCH"@ {
            MetadataSpec { arch: Some(value), ..m }
        } else if key == "OS"@ {
            MetadataSpec { os: Some(value), ..m }
        } else if key == "DISTRO"@ {
            MetadataSpec { distro: Some(value), ..m }
        } else if key == "SHELL"@ {
            MetadataSpec { shell: Some(value), ..m }
        } else if key == "PKG_MANAGER"@ {
            MetadataSpec { package_manager: Some(value), ..m }
        } else {
            m
        }
    }
}

/// The metadata that the lines `ls` give, read in order.
pub open spec fn metadata_of_lines(ls: Seq<Seq<char>>) -> MetadataSpec
    decreases ls.len(),
{
    if ls.len() == 0 {
        no_metadata()
    } else {
        apply_line(metadata_of_lines(ls.drop_last()), ls.last())
    }
}

/// The metadata that probe output `stdout` gives, stamped with `now`.
pub open spec fn parsed_metadata(stdout: Seq<char>, now: u64) -> MetadataSpec {
    MetadataSpec { collected_at: Some(now), ..metadata_of_lines(lines_of(stdout)) }
}

/// Applies the line `v[a..b]` to `m`.
fn apply_line_exec(m: &mut SystemMetadata, v: &Vec<char>, a: usize, b: usize)
    requires
        a <= b <= v@.len(),
    ensures
        final(m)@ == apply_line(old(m)@, v@.subrange(a as int, b as int)),
{
    let ghost line = v@.subrange(a as int, b as int);
    let eq = find_from(v, a, b, '=');
    if eq == b {
        return;
    }
    let (ka, kb) = trim_bounds(v, a, eq);
    let (va, vb) = trim_bounds(v, eq + 1, b);
    assert(line.take(eq - a) =~= v@.subrange(a as int, eq as int));
    assert(line.skip(eq - a + 1) =~= v@.subrange(eq + 1, b as int));
    if va == vb {
        return;
    }
    let value = string_of_range(v, va, vb);
    if range_is(v, ka, kb, "ARCH") {
        m.arch = Some(value);
    } else if range_is(v, ka, kb, "OS") {
        m.os = Some(value);
    } else if range_is(v, ka, kb, "DISTRO") {
        m.distro = Some(value);
    } else if range_is(v, ka, kb, "SHELL") {
        m.shell = Some(value);
    } else if range_is(v, ka, kb, "PKG_MANAGER") {
        m.package_manager = Some(value);
    }
}

/// Parses `KEY=VALUE` probe output into metadata stamped with `now` (seconds
/// since the Unix epoch). Lines without `=`, with empty values, or with
/// unknown keys are skipped.
pub fn parse_output_at(stdout: &str, now: u64) -> (r: SystemMetadata)
    ensures
        r@ == parsed_metadata(stdout@, now),
{
    let v = chars_of(stdout);
    let bounds = line_bounds(&v);
    let ghost ls = lines_of(stdout@);
    let mut meta = SystemMetadata::default();
    let mut i: usize = 0;
    while i < bounds.len()
        invariant
            v@ == stdout@,
            ls == lines_of(v@),
            bounds@.len() == ls.len(),
            forall|j: int|
                0 <= j < bounds@.len() ==> {
                    &&& (#[trigger] bounds@[j]).0 <= bounds@[j].1 <= v@.len()
                    &&& ls[j] == v@.subrange(bounds@[j].0 as int, bounds@[j].1 as int)
                },
            i <= bounds@.len(),
            meta@ == metadata_of_lines(ls.take(i as int)),
        decreases bounds@.len() - i,
    {
        let (a, b) = bounds[i];
        apply_line_exec(&mut meta, &v, a, b);
        proof {
            assert(ls.take(i + 1).drop_last() =~= ls.take(i as int));
            assert(ls.take(i + 1).last() == ls[i as int]);
        }
        i = i + 1;
    }
    assert(ls.take(i as int) =~= ls);
    meta.collected_at = Some(now);
    meta
}

/// Relies on `std::time::SystemTime::now`: the current time as whole seconds
/// since the Unix epoch (zero for a clock set before it). What it returns
/// depends on the clock.
#[verifier::external_body]
fn unix_now() -> (r: u64) {
    std::time::SystemTime::now().duration_since(std::time::UNIX_EPOCH).unwrap_or_default().as_secs()
}

/// Parses `KEY=VALUE` probe output into metadata stamped with the current
/// time. It does not fail.
pub fn parse_output(stdout: &str) -> (r: Result<SystemMetadata, String>)
    ensures
        r matches Ok(m) && exists|now: u64| m@ == #[trigger] parsed_metadata(stdout@, now),
{
    let now = unix_now();
    let m = parse_output_at(stdout, now);
    assert(m@ == parsed_metadata(stdout@, now));
    Ok(m)
}

/// A probe line naming a known key with a value that is not blank sets that
/// field to the trimmed value and leaves the others as they were.
pub proof fn lemma_well_formed_line(m: MetadataSpec, key: Seq<char>, value: Seq<char>)
    requires
        key == "ARCH"@ || key == "OS"@ || key == "DISTRO"@ || key == "SHELL"@ || key
            == "PKG_MANAGER"@,
        !key.contains('='),
        trim_of(key) == key,
        trim_of(value).len() > 0,
    ensures
        apply_line(m, key + seq!['='] + value) == (if key == "ARCH"@ {
            MetadataSpec { arch: Some(trim_of(value)), ..m }
        } else if key == "OS"@ {
            MetadataSpec { os: Some(trim_of(value)), ..m }
        } else if key == "DISTRO"@ {
            MetadataSpec { distro: Some(trim_of(value)), ..m }
        } else if key == "SHELL"@ {
            MetadataSpec { shell: Some(trim_of(value)), ..m }
        } else {
            MetadataSpec { package_manager: Some(trim_of(value)), ..m }
        }),
{
    let line = key + seq!['='] + value;
    assert forall|j: int| 0 <= j < key.len() implies line[j] != '=' by {
        assert(line[j] == key[j]);
        if key[j] == '=' {
            assert(key.contains('='));
        }
    }
    crate::text::lemma_find_char(line, '=', key.len() as int);
    assert(line.take(key.len() as int) =~= key);
    assert(line.skip(key.len() as int + 1) =~= value);
}

/// The field of `m` that probe key `key` sets, if it is a known key.
pub open spec fn field_of(m: MetadataSpec, key: Seq<char>) -> Option<Seq<char>> {
    if key == "ARCH"@ {
        m.arch
    } else if key == "OS"@ {
        m.os
    } else if key == "DISTRO"@ {
        m.distro
    } else if key == "SHELL"@ {
        m.shell
    } else if key == "PKG_MANAGER"@ {
        m.package_manager
    } else {
        None
    }
}

/// Whether `key` is one of the keys the probe prints.
pub open spec fn known_key(key: Seq<char>) -> bool {
    key == "ARCH"@ || key == "OS"@ || key == "DISTRO"@ || key == "SHELL"@ || key == "PKG_MANAGER"@
}

/// Whether `(key, value)` is a well-formed probe line: a known key (which
/// holds no `=` and no surrounding whitespace) and a value on one line that
/// is not blank; it may have whitespace around it.
pub open spec fn well_formed_pair(p: (Seq<char>, Seq<char>)) -> bool {
    &&& known_key(p.0)
    &&& !p.0.contains('=')
    &&& trim_of(p.0) == p.0
    &&& trim_of(p.1).len() > 0
    &&& !p.1.contains('\n')
}

/// The probe output printing `pairs` as `KEY=VALUE` lines, each ended by a
/// newline.
pub open spec fn probe_text(pairs: Seq<(Seq<char>, Seq<char>)>) -> Seq<char>
    decreases pairs.len(),
{
    if pairs.len() == 0 {
        seq![]
    } else {
        pairs[0].0 + seq!['='] + pairs[0].1 + seq!['\n'] + probe_text(pairs.drop_first())
    }
}

/// The value, trimmed, that the last pair with key `key` gives, if any.
pub open spec fn last_value(pairs: Seq<(Seq<char>, Seq<char>)>, key: Seq<char>) -> Option<Seq<char>>
    decreases pairs.len(),
{
    if pairs.len() == 0 {
        None
    } else if pairs.last().0 == key {
        Some(trim_of(pairs.last().1))
    } else {
        last_value(pairs.drop_last(), key)
    }
}

/// The probe lines of `pairs`, as line splitting yields them (a carriage
/// return before the newline is not part of the line).
pub open spec fn probe_lines(pairs: Seq<(Seq<char>, Seq<char>)>) -> Seq<Seq<char>> {
    pairs.map_values(|p: (Seq<char>, Seq<char>)| p.0 + seq!['='] + strip_cr(p.1))
}

proof fn lemma_trim_strip_cr(v: Seq<char>)
    ensures
        trim_of(strip_cr(v)) == trim_of(v),
{
    if v.len() > 0 && v.last() == '\r' {
        assert(crate::text::is_ws(v.last()));
    }
}

proof fn lemma_probe_lines(pairs: Seq<(Seq<char>, Seq<char>)>)
    requires
        forall|i: int| 0 <= i < pairs.len() ==> well_formed_pair(#[trigger] pairs[i]),
    ensures
        lines_of(probe_text(pairs)) == probe_lines(pairs),
    decreases pairs.len(),
{
    if pairs.len() > 0 {
        let p = pairs[0];
        assert(well_formed_pair(p));
        let line = p.0 + seq!['='] + p.1;
        let sline = p.0 + seq!['='] + strip_cr(p.1);
        let rest = probe_text(pairs.drop_first());
        let t = probe_text(pairs);
        assert(t =~= line + (seq!['\n'] + rest));
        assert forall|j: int| 0 <= j < line.len() implies t[j] != '\n' by {
            assert(t[j] == line[j]);
            if j < p.0.len() {
                assert(line[j] == p.0[j]);
                if p.0[j] == '\n' {
                    assert(crate::text::is_ws(p.0[j]));
                }
                lemma_key_no_newline(p.0, j);
            } else if j > p.0.len() {
                assert(line[j] == p.1[j - p.0.len() - 1]);
                if p.1[j - p.0.len() - 1] == '\n' {
                    assert(p.1.contains('\n'));
                }
            }
        }
        crate::text::lemma_line_len(t, line.len() as int);
        assert(t.take(line.len() as int) =~= line);
        assert(t.skip(line.len() as int + 1) =~= rest);
        if p.1.len() > 0 {
            assert(line.last() == p.1.last());
            assert(line.drop_last() =~= p.0 + seq!['='] + p.1.drop_last());
        } else {
            assert(trim_of(p.1) =~= p.1);
        }
        assert(strip_cr(line) =~= p.0 + seq!['='] + strip_cr(p.1));
        assert forall|i: int| 0 <= i < pairs.drop_first().len() implies well_formed_pair(
            #[trigger] pairs.drop_first()[i],
        ) by {
            assert(pairs.drop_first()[i] == pairs[i + 1]);
        }
        lemma_probe_lines(pairs.drop_first());
        assert(probe_lines(pairs) =~= seq![sline] + probe_lines(pairs.drop_first()));
    } else {
        assert(probe_lines(pairs) =~= Seq::<Seq<char>>::empty());
    }
}

proof fn lemma_key_no_newline(key: Seq<char>, j: int)
    requires
        known_key(key),
        0 <= j < key.len(),
    ensures
        key[j] != '\n',
{
    reveal_strlit("ARCH");
    reveal_strlit("OS");
    reveal_strlit("DISTRO");
    reveal_strlit("SHELL");
    reveal_strlit("PKG_MANAGER");
}

proof fn lemma_fields_of_lines(pairs: Seq<(Seq<char>, Seq<char>)>, key: Seq<char>)
    requires
        forall|i: int| 0 <= i < pairs.len() ==> well_formed_pair(#[trigger] pairs[i]),
        known_key(key),
    ensures
        field_of(metadata_of_lines(probe_lines(pairs)), key) == last_value(pairs, key),
        metadata_of_lines(probe_lines(pairs)).collected_at is None,
    decreases pairs.len(),
{
    reveal_strlit("ARCH");
    reveal_strlit("OS");
    reveal_strlit("DISTRO");
    reveal_strlit("SHELL");
    reveal_strlit("PKG_MANAGER");
    if pairs.len() > 0 {
        let ls = probe_lines(pairs);
        assert(ls.drop_last() =~= probe_lines(pairs.drop_last()));
        assert forall|i: int| 0 <= i < pairs.drop_last().len() implies well_formed_pair(
            #[trigger] pairs.drop_last()[i],
        ) by {
            assert(pairs.drop_last()[i] == pairs[i]);
        }
        lemma_fields_of_lines(pairs.drop_last(), key);
        let p = pairs.last();
        assert(well_formed_pair(pairs[pairs.len() - 1]));
        lemma_trim_strip_cr(p.1);
        lemma_well_formed_line(metadata_of_lines(ls.drop_last()), p.0, strip_cr(p.1));
    }
}

/// The probe's well-formed `KEY=VALUE` lines parse to exactly their fields:
/// each known key's field holds the trimmed value of its last line, a key
/// with no line stays absent, and the capture is stamped with the time given.
pub proof fn lemma_probe_output_parses(pairs: Seq<(Seq<char>, Seq<char>)>, now: u64, key: Seq<char>)
    requires
        forall|i: int| 0 <= i < pairs.len() ==> well_formed_pair(#[trigger] pairs[i]),
        known_key(key),
    ensures
        field_of(parsed_metadata(probe_text(pairs), now), key) == last_value(pairs, key),
        parsed_metadata(probe_text(pairs), now).collected_at == Some(now),
{
    lemma_probe_lines(pairs);
    lemma_fields_of_lines(pairs, key);
}

/// `Some(s)` as text, `None` as `(none)`.
pub open spec fn or_none(o: Option<Seq<char>>) -> Seq<char> {
    match o {
        Some(s) => s,
        None => "(none)"@,
    }
}

/// The description of one changed field: `name: old -> new`.
pub open spec fn change_text(name: Seq<char>, o: Option<Seq<char>>, n: Option<Seq<char>>) -> Seq<
    char,
> {
    name + ": "@ + or_none(o) + " -> "@ + or_none(n)
}

/// `items` with the change of field `name` appended when it changed.
pub open spec fn with_change(
    items: Seq<Seq<char>>,
    name: Seq<char>,
    o: Option<Seq<char>>,
    n: Option<Seq<char>>,
) -> Seq<Seq<char>> {
    if o != n {
        items.push(change_text(name, o, n))
    } else {
        items
    }
}

/// The descriptions of the fields that differ between `a` and `b`, in the
/// order `os`, `distro`, `arch`, `shell`, `package_manager`; `collected_at`
/// is not compared.
pub open spec fn changes(a: MetadataSpec, b: MetadataSpec) -> Seq<Seq<char>> {
    with_change(
        with_change(
            with_change(
                with_change(with_change(seq![], "os"@, a.os, b.os), "distro"@, a.distro, b.distro),
                "arch"@,
                a.arch,
                b.arch,
            ),
            "shell"@,
            a.shell,
            b.shell,
        ),
        "package_manager"@,
        a.package_manager,
        b.package_manager,
    )
}

fn push_opt(out: &mut String, o: &Option<String>)
    ensures
        final(out)@ == old(out)@ + or_none(opt_view(*o)),
{
    match o {
        Some(s) => push_str(out, s.as_str()),
        None => push_str(out, "(none)"),
    }
}

fn add_change(
    items: &mut Vec<String>,
    name: &str,
    o: &Option<String>,
    n: &Option<String>,
)
    ensures
        views_of(final(items)@) == with_change(views_of(old(items)@), name@, opt_view(*o), opt_view(*n)),
{
    if !opt_eq(o, n) {
        let mut t = String::new();
        push_str(&mut t, name);
        push_str(&mut t, ": ");
        push_opt(&mut t, o);
        push_str(&mut t, " -> ");
        push_opt(&mut t, n);
        items.push(t);
        assert(views_of(items@) =~= views_of(old(items)@).push(change_text(name@, opt_view(*o), opt_view(*n))));
    }
}

/// The views of a list of strings.
pub open spec fn views_of(v: Seq<String>) -> Seq<Seq<char>> {
    v.map_values(|s: String| s@)
}

/// Joins `items` with `sep`.
pub fn join_strings(items: &Vec<String>, sep: &str) -> (r: String)
    ensures
        r@ == join(views_of(items@), sep@),
{
    let mut r = String::new();
    let mut i: usize = 0;
    while i < items.len()
        invariant
            i <= items@.len(),
            r@ == join(views_of(items@).take(i as int), sep@),
        decreases items@.len() - i,
    {
        if i > 0 {
            push_str(&mut r, sep);
        }
        push_str(&mut r, items[i].as_str());
        proof {
            let t = views_of(items@).take(i + 1);
            assert(t.drop_last() =~= views_of(items@).take(i as int));
            if i == 0 {
                assert(views_of(items@).take(0) =~= Seq::<Seq<char>>::empty());
            }
        }
        i = i + 1;
    }
    assert(views_of(items@).take(i as int) =~= views_of(items@));
    r
}

/// Compares two captures, ignoring `collected_at`: `None` when no field
/// changed, otherwise the changes as `name: old -> new`, joined with `, `.
pub fn diff(old: &SystemMetadata, new: &SystemMetadata) -> (r: Option<String>)
    ensures
        r is None <==> changes(old@, new@).len() == 0,
        r matches Some(s) ==> s@ == join(changes(old@, new@), ", "@),
{
    let mut items: Vec<String> = Vec::new();
    assert(views_of(items@) =~= Seq::<Seq<char>>::empty());
    add_change(&mut items, "os", &old.os, &new.os);
    add_change(&mut items, "distro", &old.distro, &new.distro);
    add_change(&mut items, "arch", &old.arch, &new.arch);
    add_change(&mut items, "shell", &old.shell, &new.shell);
    add_change(&mut items, "package_manager", &old.package_manager, &new.package_manager);
    if items.len() == 0 {
        None
    } else {
        Some(join_strings(&items, ", "))
    }
}

/// A capture compared with itself reports no change.
pub proof fn lemma_diff_self(a: MetadataSpec)
    ensures
        changes(a, a).len() == 0,
{
}

/// `Some(s)` appended to `items`, `None` skipped.
pub open spec fn with_present(items: Seq<Seq<char>>, o: Option<Seq<char>>) -> Seq<Seq<char>> {
    match o {
        Some(s) => items.push(s),
        None => items,
    }
}

/// The parts of the summary line: distro, architecture and package manager,
/// those that are present.
pub open spec fn summary_parts(m: MetadataSpec) -> Seq<Seq<char>> {
    with_present(with_present(with_present(seq![], m.distro), m.arch), m.package_manager)
}

fn add_present(items: &mut Vec<String>, o: &Option<String>)
    ensures
        views_of(final(items)@) == with_present(views_of(old(items)@), opt_view(*o)),
{
    match o {
        Some(s) => {
            items.push(s.clone());
            assert(views_of(items@) =~= views_of(old(items)@).push(s@));
        },
        None => {},
    }
}

impl SystemMetadata {
    /// One-line summary of distro, architecture and package manager, joined
    /// with ` | `, such as `Ubuntu 22.04 | x86_64 | apt`; `None` when none of
    /// the three is set.
    pub fn summary_line(&self) -> (r: Option<String>)
        ensures
            r is None <==> summary_parts(self@).len() == 0,
            r matches Some(s) ==> s@ == join(summary_parts(self@), " | "@),
    {
        let mut items: Vec<String> = Vec::new();
        assert(views_of(items@) =~= Seq::<Seq<char>>::empty());
        add_present(&mut items, &self.distro);
        add_present(&mut items, &self.arch);
        add_present(&mut items, &self.package_manager);
        if items.len() == 0 {
            None
        } else {
            Some(join_strings(&items, " | "))
        }
    }
}

} // verus!
