//! The usage page: CPU load, memory, disk, fan.
use vstd::prelude::*;
use crate::text::{
    split_on, lemma_split_on_without_sep, lemma_split_on_join, is_ws, chars_of, fields, fields_of, lines, lines_of, views, string_views, strings_from, trim,
    trim_start, trim_end, trim_of, find_containing, find_containing_exec, number_chars,
    keep_number_chars,
};
use crate::number::{
    all_digits, decimal, parse_unsigned, parse_u64, parse_u32, u64_to_string,
    lemma_decimal_digits, law_parse_unsigned_of_decimal,
};
use crate::pages::CommandOutput;

verus! {

/// The icons of the usage page, code points of the private-use area of the icon font.
#[derive(Clone, Copy, Debug, PartialEq, Eq, Structural)]
pub enum UsageIcon {
    Cpu,
    Memory,
    Disk,
    Gpu,
    Fan,
    Wind,
}

/// The character that draws an icon.
pub open spec fn icon_glyph(i: UsageIcon) -> char {
    match i {
        UsageIcon::Cpu => '\u{E0A9}',
        UsageIcon::Memory => '\u{E445}',
        UsageIcon::Disk => '\u{E0ED}',
        UsageIcon::Gpu => '\u{E66A}',
        UsageIcon::Fan => '\u{E379}',
        UsageIcon::Wind => '\u{E1B0}',
    }
}

impl UsageIcon {
    /// The character that draws this icon.
    pub fn glyph(self) -> (c: char)
        ensures
            c == icon_glyph(self),
    {
        match self {
            UsageIcon::Cpu => '\u{E0A9}',
            UsageIcon::Memory => '\u{E445}',
            UsageIcon::Disk => '\u{E0ED}',
            UsageIcon::Gpu => '\u{E66A}',
            UsageIcon::Fan => '\u{E379}',
            UsageIcon::Wind => '\u{E1B0}',
        }
    }
}

/// The readings that the usage page shows. The CPU and GPU loads are held as
/// the text of the percentage, as it is to be shown.
pub struct UsagePage {
    pub cpu: Option<String>,
    pub gpu: Option<String>,
    pub memory_used: Option<String>,
    pub memory_total: Option<String>,
    pub disk_used: Option<String>,
    pub disk_total: Option<String>,
    pub fan: Option<u32>,
}

/// A text reading, or `-` when there is none.
pub open spec fn string_or_dash(v: Option<String>) -> Seq<char> {
    match v {
        Some(s) => s@,
        None => "-"@,
    }
}

/// A number reading in decimal, or `-` when there is none.
pub open spec fn value_or_dash(v: Option<u32>) -> Seq<char> {
    match v {
        Some(n) => decimal(n as nat),
        None => "-"@,
    }
}

/// The text of the usage page: five lines, each an icon and a reading.
pub open spec fn usage_text(p: UsagePage) -> Seq<char> {
    seq![icon_glyph(UsageIcon::Cpu)] + " "@ + string_or_dash(p.cpu) + " % \n"@
        + seq![icon_glyph(UsageIcon::Memory)] + " "@ + string_or_dash(p.memory_used) + " / "@
        + string_or_dash(p.memory_total) + "\n"@
        + seq![icon_glyph(UsageIcon::Disk)] + " "@ + string_or_dash(p.disk_used) + " / "@
        + string_or_dash(p.disk_total) + "\n"@
        + seq![icon_glyph(UsageIcon::Gpu)] + " "@ + "-"@ + " %\n"@
        + seq![icon_glyph(UsageIcon::Fan)] + " "@ + value_or_dash(p.fan) + " %"@
}

/// The five lines of the usage page, each an icon, a space and its readings.
pub open spec fn usage_lines(p: UsagePage) -> Seq<Seq<char>> {
    seq![
        seq![icon_glyph(UsageIcon::Cpu)] + " "@ + string_or_dash(p.cpu) + " % "@,
        seq![icon_glyph(UsageIcon::Memory)] + " "@ + string_or_dash(p.memory_used) + " / "@
            + string_or_dash(p.memory_total),
        seq![icon_glyph(UsageIcon::Disk)] + " "@ + string_or_dash(p.disk_used) + " / "@
            + string_or_dash(p.disk_total),
        seq![icon_glyph(UsageIcon::Gpu)] + " "@ + "-"@ + " %"@,
        seq![icon_glyph(UsageIcon::Fan)] + " "@ + value_or_dash(p.fan) + " %"@,
    ]
}

/// The icon that starts line `i` of the usage page.
pub open spec fn usage_line_icon(i: int) -> UsageIcon {
    if i == 0 {
        UsageIcon::Cpu
    } else if i == 1 {
        UsageIcon::Memory
    } else if i == 2 {
        UsageIcon::Disk
    } else if i == 3 {
        UsageIcon::Gpu
    } else {
        UsageIcon::Fan
    }
}

/// A text reading holds no line break.
pub open spec fn single_line(v: Option<String>) -> bool {
    match v {
        Some(s) => !s@.contains('\n'),
        None => true,
    }
}

proof fn lemma_concat_without(a: Seq<char>, b: Seq<char>, c: char)
    requires
        !a.contains(c),
        !b.contains(c),
    ensures
        !(a + b).contains(c),
{
    if (a + b).contains(c) {
        let k = choose|k: int| 0 <= k < (a + b).len() && (a + b)[k] == c;
        if k < a.len() {
            assert(a[k] == c);
        } else {
            assert(b[k - a.len()] == c);
        }
    }
}

proof fn lemma_reading_single_line(v: Option<String>)
    requires
        single_line(v),
    ensures
        !string_or_dash(v).contains('\n'),
{
    reveal_strlit("-");
}

proof fn lemma_value_single_line(v: Option<u32>)
    ensures
        !value_or_dash(v).contains('\n'),
{
    reveal_strlit("-");
    if let Some(n) = v {
        lemma_decimal_digits(n as nat);
        let d = decimal(n as nat);
        if d.contains('\n') {
            let k = choose|k: int| 0 <= k < d.len() && d[k] == '\n';
            assert(crate::text::is_digit(d[k]));
        }
    }
}

proof fn lemma_icon_single_line(i: UsageIcon)
    ensures
        !seq![icon_glyph(i)].contains('\n'),
{
    let s = seq![icon_glyph(i)];
    if s.contains('\n') {
        let k = choose|k: int| 0 <= k < s.len() && s[k] == '\n';
        assert(s[k] == icon_glyph(i));
    }
}

/// Icon, space, reading, ending: no line break when none of the parts has one.
proof fn lemma_line_without(i: UsageIcon, mid: Seq<char>, end: Seq<char>)
    requires
        !mid.contains('\n'),
        !end.contains('\n'),
    ensures
        !(seq![icon_glyph(i)] + " "@ + mid + end).contains('\n'),
{
    reveal_strlit(" ");
    lemma_icon_single_line(i);
    let sp = " "@;
    assert(!sp.contains('\n'));
    lemma_concat_without(seq![icon_glyph(i)], sp, '\n');
    lemma_concat_without(seq![icon_glyph(i)] + sp, mid, '\n');
    lemma_concat_without(seq![icon_glyph(i)] + sp + mid, end, '\n');
}

proof fn lemma_pair_without(a: Seq<char>, b: Seq<char>)
    requires
        !a.contains('\n'),
        !b.contains('\n'),
    ensures
        !(a + " / "@ + b).contains('\n'),
{
    reveal_strlit(" / ");
    let sl = " / "@;
    assert(!sl.contains('\n'));
    lemma_concat_without(a, sl, '\n');
    lemma_concat_without(a + sl, b, '\n');
}

proof fn lemma_usage_lines_single(p: UsagePage)
    requires
        single_line(p.cpu),
        single_line(p.memory_used),
        single_line(p.memory_total),
        single_line(p.disk_used),
        single_line(p.disk_total),
    ensures
        forall|i: int| 0 <= i < 5 ==> !(#[trigger] usage_lines(p)[i]).contains('\n'),
{
    reveal_strlit(" % ");
    reveal_strlit("-");
    reveal_strlit(" %");
    let e = Seq::<char>::empty();
    assert(!e.contains('\n'));
    let pct = " % "@;
    let dash = "-"@;
    let pc = " %"@;
    assert(!pct.contains('\n'));
    assert(!dash.contains('\n'));
    assert(!pc.contains('\n'));
    lemma_reading_single_line(p.cpu);
    lemma_reading_single_line(p.memory_used);
    lemma_reading_single_line(p.memory_total);
    lemma_reading_single_line(p.disk_used);
    lemma_reading_single_line(p.disk_total);
    lemma_value_single_line(p.fan);
    let ls = usage_lines(p);
    lemma_line_without(UsageIcon::Cpu, string_or_dash(p.cpu), pct);
    lemma_pair_without(string_or_dash(p.memory_used), string_or_dash(p.memory_total));
    let m = string_or_dash(p.memory_used) + " / "@ + string_or_dash(p.memory_total);
    lemma_line_without(UsageIcon::Memory, m, e);
    assert(ls[1] =~= seq![icon_glyph(UsageIcon::Memory)] + " "@ + m + e);
    lemma_pair_without(string_or_dash(p.disk_used), string_or_dash(p.disk_total));
    let d = string_or_dash(p.disk_used) + " / "@ + string_or_dash(p.disk_total);
    lemma_line_without(UsageIcon::Disk, d, e);
    assert(ls[2] =~= seq![icon_glyph(UsageIcon::Disk)] + " "@ + d + e);
    lemma_line_without(UsageIcon::Gpu, dash, pc);
    lemma_line_without(UsageIcon::Fan, value_or_dash(p.fan), pc);
}

proof fn lemma_assoc_end(pre: Seq<char>, a: Seq<char>, b: Seq<char>, c: Seq<char>, lit: Seq<char>, e: Seq<char>)
    requires
        lit == e.push('\n'),
    ensures
        pre + a + b + c + lit == pre + (a + b + c + e).push('\n'),
{
    assert(pre + a + b + c + lit =~= pre + (a + b + c + e).push('\n'));
}

proof fn lemma_assoc_pair(
    pre: Seq<char>,
    a: Seq<char>,
    b: Seq<char>,
    c: Seq<char>,
    d: Seq<char>,
    f: Seq<char>,
    lit: Seq<char>,
)
    requires
        lit == seq!['\n'],
    ensures
        pre + a + b + c + d + f + lit == pre + (a + b + c + d + f).push('\n'),
{
    assert(pre + a + b + c + d + f + lit =~= pre + (a + b + c + d + f).push('\n'));
}

proof fn lemma_assoc_last(pre: Seq<char>, a: Seq<char>, b: Seq<char>, c: Seq<char>, d: Seq<char>)
    ensures
        pre + a + b + c + d == pre + (a + b + c + d),
{
    assert(pre + a + b + c + d =~= pre + (a + b + c + d));
}

#[verifier::spinoff_prover]
proof fn lemma_usage_text_joined(p: UsagePage)
    ensures
        ({
            let ls = usage_lines(p);
            usage_text(p) == ls[0].push('\n') + (ls[1].push('\n') + (ls[2].push('\n') + (
            ls[3].push('\n') + ls[4])))
        }),
{
    let ls = usage_lines(p);
    let sp = " "@;
    let e = Seq::<char>::empty();
    assert(" % \n"@ == " % "@.push('\n')) by {
        reveal_strlit(" % \n");
        reveal_strlit(" % ");
    }
    assert("\n"@ == seq!['\n']) by {
        reveal_strlit("\n");
    }
    assert(" %\n"@ == " %"@.push('\n')) by {
        reveal_strlit(" %\n");
        reveal_strlit(" %");
    }
    let i0 = seq![icon_glyph(UsageIcon::Cpu)];
    let i1 = seq![icon_glyph(UsageIcon::Memory)];
    let i2 = seq![icon_glyph(UsageIcon::Disk)];
    let i3 = seq![icon_glyph(UsageIcon::Gpu)];
    let i4 = seq![icon_glyph(UsageIcon::Fan)];
    lemma_assoc_end(e, i0, sp, string_or_dash(p.cpu), " % \n"@, " % "@);
    assert(e + i0 == i0) by {
        assert(e + i0 =~= i0);
    }
    let s1 = i0 + sp + string_or_dash(p.cpu) + " % \n"@;
    assert(s1 == ls[0].push('\n'));
    lemma_assoc_pair(s1, i1, sp, string_or_dash(p.memory_used), " / "@, string_or_dash(p.memory_total), "\n"@);
    let s2 = s1 + i1 + sp + string_or_dash(p.memory_used) + " / "@ + string_or_dash(p.memory_total) + "\n"@;
    assert(s2 == s1 + ls[1].push('\n'));
    lemma_assoc_pair(s2, i2, sp, string_or_dash(p.disk_used), " / "@, string_or_dash(p.disk_total), "\n"@);
    let s3 = s2 + i2 + sp + string_or_dash(p.disk_used) + " / "@ + string_or_dash(p.disk_total) + "\n"@;
    assert(s3 == s2 + ls[2].push('\n'));
    lemma_assoc_end(s3, i3, sp, "-"@, " %\n"@, " %"@);
    let s4 = s3 + i3 + sp + "-"@ + " %\n"@;
    assert(s4 == s3 + ls[3].push('\n'));
    lemma_assoc_last(s4, i4, sp, value_or_dash(p.fan), " %"@);
    let s5 = s4 + i4 + sp + value_or_dash(p.fan) + " %"@;
    assert(s5 == s4 + ls[4]);
    assert(usage_text(p) == s5);
    lemma_assoc_five(ls[0].push('\n'), ls[1].push('\n'), ls[2].push('\n'), ls[3].push('\n'), ls[4]);
}

proof fn lemma_assoc_five(a: Seq<char>, b: Seq<char>, c: Seq<char>, d: Seq<char>, e: Seq<char>)
    ensures
        a + b + c + d + e == a + (b + (c + (d + e))),
{
    assert(a + b + c + d + e =~= a + (b + (c + (d + e))));
}

/// When no text reading holds a line break, the usage page is five lines:
/// CPU, memory, disk, GPU and fan, each its icon (a private-use character,
/// drawn as an icon), a space, and its readings.
pub proof fn law_usage_page_lines(p: UsagePage)
    requires
        single_line(p.cpu),
        single_line(p.memory_used),
        single_line(p.memory_total),
        single_line(p.disk_used),
        single_line(p.disk_total),
    ensures
        split_on(usage_text(p), '\n') == usage_lines(p),
        forall|i: int|
            0 <= i < 5 ==> {
                &&& (#[trigger] usage_lines(p)[i])[0] == icon_glyph(usage_line_icon(i))
                &&& usage_lines(p)[i][1] == ' '
                &&& crate::layout::is_icon(usage_lines(p)[i][0])
            },
{
    let ls = usage_lines(p);
    lemma_usage_lines_single(p);
    lemma_usage_text_joined(p);
    let t3 = ls[3].push('\n') + ls[4];
    let t2 = ls[2].push('\n') + t3;
    let t1 = ls[1].push('\n') + t2;
    assert(!ls[0].contains('\n'));
    assert(!ls[1].contains('\n'));
    assert(!ls[2].contains('\n'));
    assert(!ls[3].contains('\n'));
    assert(!ls[4].contains('\n'));
    lemma_split_on_without_sep(ls[0], '\n');
    lemma_split_on_without_sep(ls[1], '\n');
    lemma_split_on_without_sep(ls[2], '\n');
    lemma_split_on_without_sep(ls[3], '\n');
    lemma_split_on_without_sep(ls[4], '\n');
    lemma_split_on_join(ls[3], '\n', ls[4]);
    lemma_split_on_join(ls[2], '\n', t3);
    lemma_split_on_join(ls[1], '\n', t2);
    lemma_split_on_join(ls[0], '\n', t1);
    assert(split_on(usage_text(p), '\n') =~= ls);
    reveal_strlit(" ");
    assert forall|i: int| 0 <= i < 5 implies {
        &&& (#[trigger] usage_lines(p)[i])[0] == icon_glyph(usage_line_icon(i))
        &&& usage_lines(p)[i][1] == ' '
        &&& crate::layout::is_icon(usage_lines(p)[i][0])
    } by {
        let icon = usage_line_icon(i);
        assert(ls[i] =~= seq![icon_glyph(icon)] + " "@ + ls[i].skip(2)) by {
            if i == 0 {
            } else if i == 1 {
            } else if i == 2 {
            } else if i == 3 {
            } else {
            }
        }
        assert(ls[i][0] == icon_glyph(icon));
        assert(ls[i][1] == " "@[0]);
    }
}

/// A text reading, or `-` when there is none.
pub fn verify_string(val: &Option<String>) -> (s: String)
    ensures
        s@ == string_or_dash(*val),
{
    match val {
        Some(v) => v.clone(),
        None => String::from_str("-"),
    }
}

/// A number reading in decimal, or `-` when there is none.
pub fn verify_value(val: Option<u32>) -> (s: String)
    ensures
        s@ == value_or_dash(val),
{
    match val {
        Some(v) => u64_to_string(v as u64),
        None => String::from_str("-"),
    }
}

fn push_glyph(s: &mut String, icon: UsageIcon)
    ensures
        final(s)@ == old(s)@ + seq![icon_glyph(icon)],
{
    crate::text::push_char(s, icon.glyph());
    assert(s@ =~= old(s)@ + seq![icon_glyph(icon)]);
}

/// The page after taking a set of readings: they replace the earlier ones;
/// the GPU reading stays.
pub open spec fn recorded(
    p: UsagePage,
    cpu: Option<String>,
    memory: (Option<String>, Option<String>),
    disk: (Option<String>, Option<String>),
    fan: Option<u32>,
) -> UsagePage {
    UsagePage {
        cpu,
        gpu: p.gpu,
        memory_used: memory.0,
        memory_total: memory.1,
        disk_used: disk.0,
        disk_total: disk.1,
        fan,
    }
}

/// Taking the same readings twice leaves the page as taking them once, and
/// what the page held before (but the GPU reading) has no effect.
pub proof fn law_record_replaces(
    p: UsagePage,
    q: UsagePage,
    cpu: Option<String>,
    memory: (Option<String>, Option<String>),
    disk: (Option<String>, Option<String>),
    fan: Option<u32>,
)
    requires
        p.gpu == q.gpu,
    ensures
        recorded(recorded(p, cpu, memory, disk, fan), cpu, memory, disk, fan) == recorded(
            p,
            cpu,
            memory,
            disk,
            fan,
        ),
        recorded(p, cpu, memory, disk, fan) == recorded(q, cpu, memory, disk, fan),
{
}

impl UsagePage {
    /// A page with no readings yet.
    pub fn new() -> (p: Self)
        ensures
            p.cpu is None,
            p.gpu is None,
            p.memory_used is None,
            p.memory_total is None,
            p.disk_used is None,
            p.disk_total is None,
            p.fan is None,
    {
        UsagePage {
            cpu: None,
            gpu: None,
            memory_used: None,
            memory_total: None,
            disk_used: None,
            disk_total: None,
            fan: None,
        }
    }

    /// Takes a new set of readings: the CPU load text, memory (used, total),
    /// disk (used, total) and the fan level. The GPU reading stays.
    pub fn record(
        &mut self,
        cpu: Option<String>,
        memory: (Option<String>, Option<String>),
        disk: (Option<String>, Option<String>),
        fan: Option<u32>,
    )
        ensures
            final(self).cpu == cpu,
            final(self).memory_used == memory.0,
            final(self).memory_total == memory.1,
            final(self).disk_used == disk.0,
            final(self).disk_total == disk.1,
            final(self).fan == fan,
            final(self).gpu == old(self).gpu,
            *final(self) == recorded(*old(self), cpu, memory, disk, fan),
    {
        self.cpu = cpu;
        let (mem_used, mem_total) = memory;
        self.memory_used = mem_used;
        self.memory_total = mem_total;
        let (disk_used, disk_total) = disk;
        self.disk_used = disk_used;
        self.disk_total = disk_total;
        self.fan = fan;
    }

    /// The text of the page.
    pub fn display(&self) -> (s: String)
        ensures
            s@ == usage_text(*self),
    {
        let mut s = String::new();
        push_glyph(&mut s, UsageIcon::Cpu);
        s.append(" ");
        s.append(verify_string(&self.cpu).as_str());
        s.append(" % \n");
        push_glyph(&mut s, UsageIcon::Memory);
        s.append(" ");
        s.append(verify_string(&self.memory_used).as_str());
        s.append(" / ");
        s.append(verify_string(&self.memory_total).as_str());
        s.append("\n");
        push_glyph(&mut s, UsageIcon::Disk);
        s.append(" ");
        s.append(verify_string(&self.disk_used).as_str());
        s.append(" / ");
        s.append(verify_string(&self.disk_total).as_str());
        s.append("\n");
        push_glyph(&mut s, UsageIcon::Gpu);
        s.append(" ");
        s.append("-");
        s.append(" %\n");
        push_glyph(&mut s, UsageIcon::Fan);
        s.append(" ");
        s.append(verify_value(self.fan).as_str());
        s.append(" %");
        assert(s@ =~= usage_text(*self));
        s
    }

    /// How long to wait after drawing the page, in milliseconds.
    pub fn refresh_millis(&self) -> (ms: u64)
        ensures
            ms == 1000,
    {
        1000
    }
}


// ---------------------------------------------------------------------------
// Readings from the text that the system reports
// ---------------------------------------------------------------------------

/// The text that bytesize writes for `bytes` with SI (decimal) units.
pub uninterp spec fn si_size_text(bytes: u64) -> Seq<char>;

/// The SI unit prefixes of bytesize (`UNITS_SI`): kilo to exa.
pub open spec fn si_prefix(c: char) -> bool {
    c == 'k' || c == 'M' || c == 'G' || c == 'T' || c == 'P' || c == 'E'
}

/// The shape of bytesize's SI text for `bytes`: below 1000, the decimal
/// count and " B"; from 1000 on, a number with one decimal (at least one
/// digit, a point, one digit), a space, a unit prefix and `B`.
pub open spec fn si_text_shape(bytes: u64, t: Seq<char>) -> bool {
    if bytes < 1000 {
        t == decimal(bytes as nat) + seq![' ', 'B']
    } else {
        let n = t.len();
        &&& n >= 6
        &&& t[n - 1] == 'B'
        &&& si_prefix(t[n - 2])
        &&& t[n - 3] == ' '
        &&& crate::text::is_digit(t[n - 4])
        &&& t[n - 5] == '.'
        &&& all_digits(t.take(n - 5))
    }
}

/// `ByteSize::b(bytes).display().si().to_string()` of bytesize. Its text is
/// named, and its shape stated as bytesize's source writes it: below 1000
/// bytes the decimal count and " B"; from 1000 on `{:.1}` of a positive
/// floating-point amount, a space, a prefix of `UNITS_SI` and `B`. Which
/// digits the floating-point division gives is left unsaid.
#[verifier::external_body]
fn si_size(bytes: u64) -> (s: String)
    ensures
        s@ == si_size_text(bytes),
        si_text_shape(bytes, s@),
{
    bytesize::ByteSize::b(bytes).display().si().to_string()
}

/// bytesize's SI text ends in `B` and holds a digit.
proof fn lemma_si_text_ends_in_b(bytes: u64, t: Seq<char>)
    requires
        si_text_shape(bytes, t),
    ensures
        t.len() >= 2,
        t.last() == 'B',
        exists|k: int| 0 <= k < t.len() && crate::text::is_digit(#[trigger] t[k]),
{
    if bytes < 1000 {
        lemma_decimal_digits(bytes as nat);
        let d = decimal(bytes as nat);
        assert(t[0] == d[0]);
        assert(crate::text::is_digit(t[0]));
    } else {
        assert(crate::text::is_digit(t[t.len() - 4]));
    }
}

/// What keeps the digits and points of a text holds nothing else.
proof fn lemma_number_chars_only(s: Seq<char>)
    ensures
        forall|i: int|
            0 <= i < number_chars(s).len() ==> crate::text::is_digit(#[trigger] number_chars(s)[i])
                || number_chars(s)[i] == '.',
    decreases s.len(),
{
    if s.len() > 0 {
        lemma_number_chars_only(s.drop_last());
        let p = number_chars(s.drop_last());
        assert forall|i: int|
            0 <= i < number_chars(s).len() implies crate::text::is_digit(
            #[trigger] number_chars(s)[i],
        ) || number_chars(s)[i] == '.' by {
            if i < p.len() {
                assert(number_chars(s)[i] == p[i]);
            }
        }
    }
}

/// What keeps the digits of a text that holds one is not empty.
proof fn lemma_number_chars_nonempty(s: Seq<char>, k: int)
    requires
        0 <= k < s.len(),
        crate::text::is_digit(s[k]),
    ensures
        number_chars(s).len() > 0,
    decreases s.len(),
{
    if k < s.len() - 1 {
        assert(s.drop_last()[k] == s[k]);
        lemma_number_chars_nonempty(s.drop_last(), k);
    }
}

/// `ls[i]`, or an empty line when there is none.
pub open spec fn line_or_empty(ls: Seq<Seq<char>>, i: int) -> Seq<char> {
    if 0 <= i < ls.len() {
        ls[i]
    } else {
        Seq::<char>::empty()
    }
}

/// The number in field `k` of `line`; 0 when there is no such field or it
/// is not a `u64` numeral.
pub open spec fn field_value(line: Seq<char>, k: int) -> nat {
    let fs = fields(line);
    if 0 <= k < fs.len() {
        match parse_unsigned(fs[k], u64::MAX as nat) {
            Some(v) => v,
            None => 0,
        }
    } else {
        0
    }
}

fn field_value_exec(line: &Vec<char>, k: usize) -> (r: u64)
    ensures
        r == field_value(line@, k as int),
{
    let fs = fields_of(line);
    if k < fs.len() {
        assert(views(fs@)[k as int] == fs@[k as int]@);
        match parse_u64(&fs[k]) {
            Some(v) => v,
            None => 0,
        }
    } else {
        0
    }
}

/// The total memory, in kB, of `/proc/meminfo`: its first line, second field.
pub open spec fn meminfo_total_kb(text: Seq<char>) -> nat {
    field_value(line_or_empty(lines(text), 0), 1)
}

/// The available memory, in kB, of `/proc/meminfo`: its third line, second field.
pub open spec fn meminfo_available_kb(text: Seq<char>) -> nat {
    field_value(line_or_empty(lines(text), 2), 1)
}

/// The memory text can be read: its first and third lines have a second
/// field, their values in bytes fit a `u64`, and no more is available than
/// there is in total.
pub open spec fn meminfo_usable(text: Seq<char>) -> bool {
    let ls = lines(text);
    &&& fields(line_or_empty(ls, 0)).len() >= 2
    &&& fields(line_or_empty(ls, 2)).len() >= 2
    &&& meminfo_total_kb(text) * 1000 <= u64::MAX
    &&& meminfo_available_kb(text) * 1000 <= u64::MAX
    &&& meminfo_available_kb(text) <= meminfo_total_kb(text)
}

fn line_or_empty_exec(ls: &Vec<Vec<char>>, i: usize) -> (r: Vec<char>)
    ensures
        r@ == line_or_empty(views(ls@), i as int),
{
    if i < ls.len() {
        assert(views(ls@)[i as int] == ls@[i as int]@);
        crate::text::copy_range(&ls[i], 0, ls[i].len())
    } else {
        Vec::new()
    }
}

/// The first and third lines of the memory text, how many fields each has,
/// and the values of their second fields.
fn meminfo_numbers(text: &str) -> (r: (usize, usize, u64, u64))
    ensures
        ({
            let ls = lines(text@);
            &&& r.0 == fields(line_or_empty(ls, 0)).len()
            &&& r.1 == fields(line_or_empty(ls, 2)).len()
            &&& r.2 == meminfo_total_kb(text@)
            &&& r.3 == meminfo_available_kb(text@)
        }),
{
    let chars = chars_of(text);
    let ls = lines_of(&chars);
    let total_line = line_or_empty_exec(&ls, 0);
    let avail_line = line_or_empty_exec(&ls, 2);
    let n_total = fields_of(&total_line).len();
    let n_avail = fields_of(&avail_line).len();
    (n_total, n_avail, field_value_exec(&total_line, 1), field_value_exec(&avail_line, 1))
}

/// Whether the memory text can be read (see `meminfo_usable`).
pub fn meminfo_is_usable(text: &str) -> (b: bool)
    ensures
        b == meminfo_usable(text@),
{
    let (n_total, n_avail, total, avail) = meminfo_numbers(text);
    n_total >= 2 && n_avail >= 2 && total <= u64::MAX / 1000 && avail <= u64::MAX / 1000 && avail
        <= total
}

/// The memory readings of a `/proc/meminfo` text: (used, total), each as
/// bytesize writes it with SI units; the values are in kB and count 1000
/// bytes each; used is total less available.
pub fn memory_from_meminfo(text: &str) -> (r: (Option<String>, Option<String>))
    requires
        meminfo_usable(text@),
    ensures
        r.0 matches Some(u) && u@ == si_size_text(
            ((meminfo_total_kb(text@) - meminfo_available_kb(text@)) * 1000) as u64,
        ),
        r.1 matches Some(t) && t@ == si_size_text((meminfo_total_kb(text@) * 1000) as u64),
        r.0 matches Some(u) && si_text_shape(
            ((meminfo_total_kb(text@) - meminfo_available_kb(text@)) * 1000) as u64,
            u@,
        ) && u@.last() == 'B',
        r.1 matches Some(t) && si_text_shape((meminfo_total_kb(text@) * 1000) as u64, t@)
            && t@.last() == 'B',
{
    let (_, _, total_kb, avail_kb) = meminfo_numbers(text);
    let total = total_kb * 1000;
    let available = avail_kb * 1000;
    let used = total - available;
    let used_text = si_size(used);
    let total_text = si_size(total);
    proof {
        lemma_si_text_ends_in_b(used, used_text@);
        lemma_si_text_ends_in_b(total, total_text@);
    }
    (Some(used_text), Some(total_text))
}

/// The data line of `df -k /`: its second line, or a blank when there is none.
pub open spec fn df_data_line(text: Seq<char>) -> Seq<char> {
    let ls = lines(text);
    if ls.len() > 1 {
        ls[1]
    } else {
        " "@
    }
}

/// The size of the file system, in bytes, that `df -k` reports (its second field, times 1000).
pub open spec fn df_total_bytes(text: Seq<char>) -> nat {
    field_value(df_data_line(text), 1) * 1000
}

/// The space used, in bytes, that `df -k` reports (its third field, times 1000).
pub open spec fn df_used_bytes(text: Seq<char>) -> nat {
    field_value(df_data_line(text), 2) * 1000
}

/// The space used that `df -k` reports is the `Used` column: the third
/// whitespace field of its second line read as a number of kB (0 when it is
/// missing or no numeral), times 1000; no other field plays a part.
pub proof fn law_df_used_is_third_field(text: Seq<char>)
    ensures
        lines(text).len() > 1 && fields(lines(text)[1]).len() > 2 ==> df_used_bytes(text) == (
        match parse_unsigned(fields(lines(text)[1])[2], u64::MAX as nat) {
            Some(v) => v,
            None => 0,
        }) * 1000,
        lines(text).len() > 1 && fields(lines(text)[1]).len() <= 2 ==> df_used_bytes(text) == 0,
        lines(text).len() > 1 && fields(lines(text)[1]).len() > 1 ==> df_total_bytes(text) == (
        match parse_unsigned(fields(lines(text)[1])[1], u64::MAX as nat) {
            Some(v) => v,
            None => 0,
        }) * 1000,
{
}

/// Two `df` texts whose data lines have the same third field report the
/// same space used, whatever their other fields.
pub proof fn law_df_used_ignores_other_fields(t1: Seq<char>, t2: Seq<char>)
    requires
        lines(t1).len() > 1,
        lines(t2).len() > 1,
        fields(lines(t1)[1]).len() > 2,
        fields(lines(t2)[1]).len() > 2,
        fields(lines(t1)[1])[2] == fields(lines(t2)[1])[2],
    ensures
        df_used_bytes(t1) == df_used_bytes(t2),
{
    law_df_used_is_third_field(t1);
    law_df_used_is_third_field(t2);
}

/// Both byte counts of the `df` text fit a `u64`.
pub open spec fn df_usable(text: Seq<char>) -> bool {
    df_total_bytes(text) <= u64::MAX && df_used_bytes(text) <= u64::MAX
}

fn df_numbers(text: &str) -> (r: (u64, u64))
    ensures
        r.0 == field_value(df_data_line(text@), 1),
        r.1 == field_value(df_data_line(text@), 2),
{
    let chars = chars_of(text);
    let ls = lines_of(&chars);
    let line = if ls.len() > 1 {
        assert(views(ls@)[1] == ls@[1]@);
        crate::text::copy_range(&ls[1], 0, ls[1].len())
    } else {
        chars_of(" ")
    };
    assert(views(ls@).len() == ls@.len());
    assert(line@ == df_data_line(text@));
    (field_value_exec(&line, 1), field_value_exec(&line, 2))
}

/// Whether the `df` text can be read (see `df_usable`).
pub fn df_is_usable(text: &str) -> (b: bool)
    ensures
        b == df_usable(text@),
{
    let (total, used) = df_numbers(text);
    total <= u64::MAX / 1000 && used <= u64::MAX / 1000
}

/// The disk readings of `df -k /`: none when the command could not be run;
/// else (used, total), total as bytesize writes it with SI units and used
/// as that text keeps of its digits and points.
pub fn disk_usage(df: &Option<CommandOutput>) -> (r: (Option<String>, Option<String>))
    requires
        df matches Some(o) ==> df_usable(o.stdout@),
    ensures
        df is None ==> r.0 is None && r.1 is None,
        df matches Some(o) ==> {
            &&& r.0 matches Some(u) && u@ == number_chars(
                si_size_text(df_used_bytes(o.stdout@) as u64),
            )
            &&& r.1 matches Some(t) && t@ == si_size_text(df_total_bytes(o.stdout@) as u64)
            &&& r.0 matches Some(u) && u@.len() > 0 && forall|i: int|
                0 <= i < u@.len() ==> crate::text::is_digit(#[trigger] u@[i]) || u@[i] == '.'
            &&& r.1 matches Some(t) && si_text_shape(df_total_bytes(o.stdout@) as u64, t@)
                && t@.last() == 'B'
        },
{
    match df {
        None => (None, None),
        Some(o) => {
            let (total_kb, used_kb) = df_numbers(o.stdout.as_str());
            let total_bytes = total_kb * 1000;
            let used_bytes = used_kb * 1000;
            let total = si_size(total_bytes);
            let used_text = si_size(used_bytes);
            let used = keep_number_chars(used_text.as_str());
            proof {
                lemma_si_text_ends_in_b(total_bytes, total@);
                lemma_si_text_ends_in_b(used_bytes, used_text@);
                let k = choose|k: int|
                    0 <= k < used_text@.len() && crate::text::is_digit(#[trigger] used_text@[k]);
                lemma_number_chars_nonempty(used_text@, k);
                lemma_number_chars_only(used_text@);
            }
            (Some(used), Some(total))
        },
    }
}

/// The fan level of a `pwm1` text: the trimmed text as a `u32`, none when it
/// is not a numeral; the level 256 reads as none too.
pub open spec fn fan_level(text: Seq<char>) -> Option<u32> {
    let v = match parse_unsigned(trim(text), u32::MAX as nat) {
        Some(v) => v,
        None => 256,
    };
    if v == 256 {
        None
    } else {
        Some(v as u32)
    }
}

/// The fan reading of a `pwm1` text.
pub fn fan_from_pwm(text: &str) -> (r: Option<u32>)
    ensures
        r == fan_level(text@),
{
    let chars = chars_of(text);
    let t = trim_of(&chars);
    let percent = match parse_u32(&t) {
        Some(v) => v,
        None => 256,
    };
    if percent == 256 {
        None
    } else {
        Some(percent)
    }
}

/// The line of `top` output that holds the CPU load.
pub open spec fn cpu_line(text: Seq<char>) -> Option<Seq<char>> {
    find_containing(lines(text), "Cpu(s)"@)
}

/// The fields of the CPU line of `top -bn1`: none when the command could
/// not be run or no line contains `Cpu(s)`; else the whitespace-separated
/// fields of the first line that does.
pub fn cpu_fields(top: &Option<CommandOutput>) -> (r: Option<Vec<String>>)
    ensures
        match top {
            None => r is None,
            Some(o) => match cpu_line(o.stdout@) {
                None => r is None,
                Some(l) => r matches Some(fs) && string_views(fs@) == fields(l),
            },
        },
{
    match top {
        None => None,
        Some(o) => {
            let chars = chars_of(o.stdout.as_str());
            let ls = lines_of(&chars);
            let pat = chars_of("Cpu(s)");
            match find_containing_exec(&ls, &pat) {
                None => None,
                Some(i) => {
                    let fs = fields_of(&ls[i]);
                    Some(strings_from(&fs))
                },
            }
        },
    }
}


proof fn lemma_digits_not_ws(d: Seq<char>, i: int)
    requires
        all_digits(d),
        0 <= i < d.len(),
    ensures
        !is_ws(d[i]),
{
    assert(crate::text::is_digit(d[i]));
}

/// A fan level written in decimal, with or without a line break after it,
/// reads back as that level; only 256 reads as no level.
pub proof fn law_fan_level_of_decimal(n: u32)
    ensures
        fan_level(decimal(n as nat)) == (if n == 256 { None } else { Some(n) }),
        fan_level(decimal(n as nat).push('\n')) == (if n == 256 { None } else { Some(n) }),
{
    let d = decimal(n as nat);
    lemma_decimal_digits(n as nat);
    law_parse_unsigned_of_decimal(n as nat, u32::MAX as nat);
    lemma_digits_not_ws(d, 0);
    lemma_digits_not_ws(d, d.len() - 1);
    assert(trim_start(d) == d);
    assert(trim_end(d) == d);
    let e = d.push('\n');
    assert(e[0] == d[0]);
    assert(trim_start(e) == e);
    assert(e.drop_last() =~= d);
    assert(trim_end(e) == trim_end(d));
}

} // verus!
