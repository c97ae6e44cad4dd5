//! The network page: addresses of the interfaces, and the link status.
use vstd::prelude::*;
use crate::text::{
    lemma_split_on_without_sep, lemma_split_on_join, chars_of, push_char, string_from, append_chars, append_padded, append_truncated, lines,
    lines_of, views, split_on, split_chars, fields, fields_of, find_containing,
    find_containing_exec, starts_with, starts_with_exec, replace_all, replace_all_exec, pad_right,
    truncate,
};
use crate::number::{
    parse_unsigned, lemma_decimal_digits, law_parse_unsigned_of_decimal, decimal, decimal_chars, signed_decimal, parse_signed32, parse_i32, i32_to_string,
};
use crate::pages::CommandOutput;

verus! {

// ---------------------------------------------------------------------------
// Addresses
// ---------------------------------------------------------------------------

/// A network interface as the system lists it: its name and, when the
/// address listed is an IPv4 one, its four octets.
pub struct InterfaceAddress {
    pub name: String,
    pub ipv4: Option<[u8; 4]>,
}

/// An IPv4 address in dotted decimal (`Ipv4Addr`'s `Display`).
pub open spec fn ipv4_text(o: [u8; 4]) -> Seq<char> {
    decimal(o@[0] as nat) + seq!['.'] + decimal(o@[1] as nat) + seq!['.'] + decimal(
        o@[2] as nat,
    ) + seq!['.'] + decimal(o@[3] as nat)
}

/// A numeral of a positive number does not start with `0`.
proof fn lemma_decimal_leading(n: nat)
    ensures
        decimal(n).len() > 0,
        n > 0 ==> decimal(n)[0] != '0',
    decreases n,
{
    if n >= 10 {
        lemma_decimal_leading(n / 10);
        assert(decimal(n)[0] == decimal(n / 10)[0]);
    }
}

proof fn lemma_decimal_without_point(n: nat)
    ensures
        !decimal(n).contains('.'),
{
    lemma_decimal_digits(n);
    let d = decimal(n);
    if d.contains('.') {
        let k = choose|k: int| 0 <= k < d.len() && d[k] == '.';
        assert(crate::text::is_digit(d[k]));
    }
}

proof fn lemma_dotted_assoc(a: Seq<char>, b: Seq<char>, c: Seq<char>, d: Seq<char>)
    ensures
        a + seq!['.'] + b + seq!['.'] + c + seq!['.'] + d == a.push('.') + (b.push('.') + (c.push(
            '.',
        ) + d)),
{
    assert(a + seq!['.'] + b + seq!['.'] + c + seq!['.'] + d =~= a.push('.') + (b.push('.') + (
    c.push('.') + d)));
}

/// A dotted address is four fields between `.`: the octets in decimal,
/// each the shortest numeral (no leading zero but in `0` itself) of a value
/// at most 255, which is the form `Ipv4Addr`'s parser reads back.
pub proof fn law_ipv4_text_fields(o: [u8; 4])
    ensures
        split_on(ipv4_text(o), '.') == seq![
            decimal(o@[0] as nat),
            decimal(o@[1] as nat),
            decimal(o@[2] as nat),
            decimal(o@[3] as nat),
        ],
        forall|i: int|
            0 <= i < 4 ==> {
                let f = #[trigger] split_on(ipv4_text(o), '.')[i];
                &&& parse_unsigned(f, 255) == Some(o@[i] as nat)
                &&& (f.len() == 1 || f[0] != '0')
            },
{
    let d0 = decimal(o@[0] as nat);
    let d1 = decimal(o@[1] as nat);
    let d2 = decimal(o@[2] as nat);
    let d3 = decimal(o@[3] as nat);
    lemma_dotted_assoc(d0, d1, d2, d3);
    lemma_decimal_without_point(o@[0] as nat);
    lemma_decimal_without_point(o@[1] as nat);
    lemma_decimal_without_point(o@[2] as nat);
    lemma_decimal_without_point(o@[3] as nat);
    lemma_split_on_without_sep(d0, '.');
    lemma_split_on_without_sep(d1, '.');
    lemma_split_on_without_sep(d2, '.');
    lemma_split_on_without_sep(d3, '.');
    lemma_split_on_join(d2, '.', d3);
    lemma_split_on_join(d1, '.', d2.push('.') + d3);
    lemma_split_on_join(d0, '.', d1.push('.') + (d2.push('.') + d3));
    let fs = seq![d0, d1, d2, d3];
    assert(split_on(ipv4_text(o), '.') =~= fs);
    assert forall|i: int| 0 <= i < 4 implies {
        let f = #[trigger] split_on(ipv4_text(o), '.')[i];
        &&& parse_unsigned(f, 255) == Some(o@[i] as nat)
        &&& (f.len() == 1 || f[0] != '0')
    } by {
        let n = o@[i] as nat;
        assert(fs[i] == decimal(n)) by {
            if i == 0 {
            } else if i == 1 {
            } else if i == 2 {
            } else {
            }
        }
        law_parse_unsigned_of_decimal(n, 255);
        lemma_decimal_leading(n);
        if n == 0 {
            assert(decimal(n).len() == 1);
        }
    }
}

/// The (name, address) of each interface of `ifs` that has an IPv4 address, in order.
pub open spec fn ipv4_entries(ifs: Seq<InterfaceAddress>) -> Seq<(Seq<char>, Seq<char>)>
    decreases ifs.len(),
{
    if ifs.len() == 0 {
        Seq::empty()
    } else {
        let prev = ipv4_entries(ifs.drop_last());
        match ifs.last().ipv4 {
            Some(o) => prev.push((ifs.last().name@, ipv4_text(o))),
            None => prev,
        }
    }
}

/// The IPv4 entries of all interfaces but the first one listed.
pub open spec fn listed_entries(ifs: Seq<InterfaceAddress>) -> Seq<(Seq<char>, Seq<char>)> {
    if ifs.len() == 0 {
        Seq::empty()
    } else {
        ipv4_entries(ifs.drop_first())
    }
}

/// How many interfaces of `ifs` have an IPv4 address.
pub open spec fn ipv4_count(ifs: Seq<InterfaceAddress>) -> nat
    decreases ifs.len(),
{
    if ifs.len() == 0 {
        0
    } else {
        ipv4_count(ifs.drop_last()) + if ifs.last().ipv4 is Some {
            1nat
        } else {
            0nat
        }
    }
}

/// There is one entry per interface with an IPv4 address, whatever the
/// address, in the order of the interfaces: the interface `j` comes at the
/// position that counts the IPv4 interfaces before it.
pub proof fn law_one_entry_per_ipv4_interface(ifs: Seq<InterfaceAddress>)
    ensures
        ipv4_entries(ifs).len() == ipv4_count(ifs),
        forall|j: int|
            #![trigger ifs[j]]
            0 <= j < ifs.len() && ifs[j].ipv4 is Some ==> ipv4_entries(ifs)[ipv4_count(
                ifs.take(j),
            ) as int] == (ifs[j].name@, ipv4_text(ifs[j].ipv4->0)),
    decreases ifs.len(),
{
    if ifs.len() > 0 {
        let p = ifs.drop_last();
        law_one_entry_per_ipv4_interface(p);
        assert forall|j: int|
            #![trigger ifs[j]]
            0 <= j < ifs.len() && ifs[j].ipv4 is Some implies ipv4_entries(ifs)[ipv4_count(
            ifs.take(j),
        ) as int] == (ifs[j].name@, ipv4_text(ifs[j].ipv4->0)) by {
            if j < ifs.len() - 1 {
                assert(p.take(j) =~= ifs.take(j));
                assert(p[j] == ifs[j]);
                lemma_ipv4_count_prefix(p, j);
            } else {
                assert(ifs.take(j) =~= p);
                assert(ifs[j] == ifs.last());
            }
        }
    }
}

proof fn lemma_ipv4_count_prefix(ifs: Seq<InterfaceAddress>, j: int)
    requires
        0 <= j < ifs.len(),
        ifs[j].ipv4 is Some,
    ensures
        ipv4_count(ifs.take(j)) < ipv4_count(ifs),
    decreases ifs.len(),
{
    if j < ifs.len() - 1 {
        let p = ifs.drop_last();
        assert(p.take(j) =~= ifs.take(j));
        assert(p[j] == ifs[j]);
        lemma_ipv4_count_prefix(p, j);
    } else {
        assert(ifs.take(j) =~= ifs.drop_last());
    }
}

/// The entries listed are those of the interfaces after the first one,
/// one per interface with an IPv4 address, whatever the address, in order:
/// interface `j` (from 1 on) at the position that counts the IPv4
/// interfaces between the first and it.
pub proof fn law_listed_entries(ifs: Seq<InterfaceAddress>)
    requires
        ifs.len() > 0,
    ensures
        listed_entries(ifs).len() == ipv4_count(ifs.subrange(1, ifs.len() as int)),
        forall|j: int|
            #![trigger ifs[j]]
            1 <= j < ifs.len() && ifs[j].ipv4 is Some ==> listed_entries(ifs)[ipv4_count(
                ifs.subrange(1, j),
            ) as int] == (ifs[j].name@, ipv4_text(ifs[j].ipv4->0)),
{
    let rest = ifs.drop_first();
    law_one_entry_per_ipv4_interface(rest);
    assert(rest =~= ifs.subrange(1, ifs.len() as int));
    assert forall|j: int|
        #![trigger ifs[j]]
        1 <= j < ifs.len() && ifs[j].ipv4 is Some implies listed_entries(ifs)[ipv4_count(
        ifs.subrange(1, j),
    ) as int] == (ifs[j].name@, ipv4_text(ifs[j].ipv4->0)) by {
        assert(rest[j - 1] == ifs[j]);
        assert(rest.take(j - 1) =~= ifs.subrange(1, j));
    }
}

/// `e` is the name and dotted address of interface `j` of `ifs`, which has an IPv4 address.
pub open spec fn entry_of(ifs: Seq<InterfaceAddress>, j: int, e: (Seq<char>, Seq<char>)) -> bool {
    0 <= j < ifs.len() && ifs[j].ipv4 is Some && e == (ifs[j].name@, ipv4_text(ifs[j].ipv4->0))
}

/// Each entry is the name and dotted address of an interface of `ifs`
/// that has that IPv4 address: entry `i` is that of interface `j`.
pub proof fn law_entry_from_interface(ifs: Seq<InterfaceAddress>, i: int) -> (j: int)
    requires
        0 <= i < ipv4_entries(ifs).len(),
    ensures
        entry_of(ifs, j, ipv4_entries(ifs)[i]),
    decreases ifs.len(),
{
    let p = ifs.drop_last();
    if i < ipv4_entries(p).len() {
        assert(ipv4_entries(ifs)[i] == ipv4_entries(p)[i]);
        let j = law_entry_from_interface(p, i);
        assert(ifs[j] == p[j]);
        j
    } else {
        assert(ifs[ifs.len() - 1] == ifs.last());
        ifs.len() - 1
    }
}

/// The contents of (name, address) pairs.
pub open spec fn pair_views(ps: Seq<(String, String)>) -> Seq<(Seq<char>, Seq<char>)> {
    ps.map_values(|p: (String, String)| (p.0@, p.1@))
}

/// `Ipv4Addr::to_string` of the octets `o`.
pub fn ipv4_to_string(o: [u8; 4]) -> (s: String)
    ensures
        s@ == ipv4_text(o),
{
    let mut s = String::new();
    append_chars(&mut s, &decimal_chars(o[0] as u64));
    push_char(&mut s, '.');
    append_chars(&mut s, &decimal_chars(o[1] as u64));
    push_char(&mut s, '.');
    append_chars(&mut s, &decimal_chars(o[2] as u64));
    push_char(&mut s, '.');
    append_chars(&mut s, &decimal_chars(o[3] as u64));
    assert(s@ =~= ipv4_text(o));
    s
}

/// Whether some interface after the first one listed has an IPv4 address.
pub fn has_listed_address(interfaces: &Vec<InterfaceAddress>) -> (b: bool)
    ensures
        b == (listed_entries(interfaces@).len() > 0),
{
    let n = interfaces.len();
    if n == 0 {
        return false;
    }
    let ghost rest = interfaces@.drop_first();
    let mut i: usize = 1;
    while i < n
        invariant
            1 <= i <= n == interfaces.len(),
            rest == interfaces@.drop_first(),
            ipv4_entries(rest.take(i - 1)).len() == 0,
        decreases n - i,
    {
        let ghost t = rest.take(i as int);
        assert(t.drop_last() =~= rest.take(i - 1));
        assert(t.last() == interfaces@[i as int]);
        if interfaces[i].ipv4.is_some() {
            proof {
                lemma_ipv4_entries_prefix(rest, i as int);
            }
            return true;
        }
        i = i + 1;
    }
    assert(rest.take(n - 1) =~= rest);
    false
}

/// Entries of a prefix are a prefix of the entries: the count never shrinks.
proof fn lemma_ipv4_entries_prefix(ifs: Seq<InterfaceAddress>, k: int)
    requires
        0 <= k <= ifs.len(),
    ensures
        ipv4_entries(ifs.take(k)).len() <= ipv4_entries(ifs).len(),
    decreases ifs.len(),
{
    if k < ifs.len() {
        lemma_ipv4_entries_prefix(ifs.drop_last(), k);
        assert(ifs.drop_last().take(k) =~= ifs.take(k));
    } else {
        assert(ifs.take(k) =~= ifs);
    }
}

/// The addresses to show: (name, dotted address) of each interface with an
/// IPv4 address, past the first interface listed, less the first of those.
pub fn addresses_from_interfaces(interfaces: &Vec<InterfaceAddress>) -> (r: Vec<(String, String)>)
    requires
        listed_entries(interfaces@).len() > 0,
    ensures
        pair_views(r@) == listed_entries(interfaces@).drop_first(),
{
    let n = interfaces.len();
    let ghost rest = interfaces@.drop_first();
    let mut out: Vec<(String, String)> = Vec::new();
    let mut i: usize = 1;
    while i < n
        invariant
            1 <= i <= n == interfaces.len(),
            rest == interfaces@.drop_first(),
            pair_views(out@) == ipv4_entries(rest.take(i - 1)),
        decreases n - i,
    {
        let ghost t = rest.take(i as int);
        assert(t.drop_last() =~= rest.take(i - 1));
        assert(t.last() == interfaces@[i as int]);
        match interfaces[i].ipv4 {
            Some(o) => {
                let name = interfaces[i].name.clone();
                let ip = ipv4_to_string(o);
                let ghost old_out = out@;
                out.push((name, ip));
                assert(pair_views(out@) =~= pair_views(old_out).push((name@, ip@)));
            },
            None => {},
        }
        i = i + 1;
    }
    assert(rest.take(n - 1) =~= rest);
    let ghost all = out@;
    out.remove(0);
    assert(pair_views(out@) =~= pair_views(all).drop_first());
    out
}

// ---------------------------------------------------------------------------
// Page text
// ---------------------------------------------------------------------------

/// One line per address: a line break, the name cut to 3 characters, `: `, the address.
pub open spec fn address_lines(a: Seq<(Seq<char>, Seq<char>)>) -> Seq<char>
    decreases a.len(),
{
    if a.len() == 0 {
        Seq::empty()
    } else {
        address_lines(a.drop_last()) + seq!['\n'] + truncate(a.last().0, 3) + ": "@ + a.last().1
    }
}

/// The text of the network page.
pub open spec fn network_text(a: Seq<(Seq<char>, Seq<char>)>, status: Seq<char>) -> Seq<char> {
    "IP Addresses: "@ + address_lines(a) + seq!['\n'] + status
}

/// The text of the network page for the given addresses and status line.
pub fn network_display_text(addresses: &Vec<(String, String)>, status: &str) -> (s: String)
    ensures
        s@ == network_text(pair_views(addresses@), status@),
{
    let mut s = String::from_str("IP Addresses: ");
    let ghost start = s@;
    for i in 0..addresses.len()
        invariant
            start == "IP Addresses: "@,
            s@ == start + address_lines(pair_views(addresses@).take(i as int)),
    {
        let ghost t = pair_views(addresses@).take(i + 1);
        assert(t.drop_last() =~= pair_views(addresses@).take(i as int));
        assert(t.last() == (addresses@[i as int].0@, addresses@[i as int].1@));
        push_char(&mut s, '\n');
        let name = chars_of(addresses[i].0.as_str());
        append_truncated(&mut s, &name, 3);
        s.append(": ");
        s.append(addresses[i].1.as_str());
        assert(s@ =~= start + address_lines(t));
    }
    assert(pair_views(addresses@).take(addresses.len() as int) =~= pair_views(addresses@));
    push_char(&mut s, '\n');
    s.append(status);
    assert(s@ =~= network_text(pair_views(addresses@), status@));
    s
}

/// One address line of the network page: the name cut to 3 characters,
/// `: `, the address.
pub open spec fn address_line(e: (Seq<char>, Seq<char>)) -> Seq<char> {
    truncate(e.0, 3) + ": "@ + e.1
}

/// Neither the name nor the address of any entry holds a line break.
pub open spec fn entries_single_line(a: Seq<(Seq<char>, Seq<char>)>) -> bool {
    forall|k: int| 0 <= k < a.len() ==> !(#[trigger] a[k]).0.contains('\n') && !a[k].1.contains('\n')
}

proof fn lemma_without_concat(a: Seq<char>, b: Seq<char>)
    requires
        !a.contains('\n'),
        !b.contains('\n'),
    ensures
        !(a + b).contains('\n'),
{
    if (a + b).contains('\n') {
        let k = choose|k: int| 0 <= k < (a + b).len() && (a + b)[k] == '\n';
        if k < a.len() {
            assert(a[k] == '\n');
        } else {
            assert(b[k - a.len()] == '\n');
        }
    }
}

proof fn lemma_address_line_single(e: (Seq<char>, Seq<char>))
    requires
        !e.0.contains('\n'),
        !e.1.contains('\n'),
    ensures
        !address_line(e).contains('\n'),
{
    reveal_strlit(": ");
    let t = truncate(e.0, 3);
    if t.contains('\n') {
        let k = choose|k: int| 0 <= k < t.len() && t[k] == '\n';
        assert(e.0[k] == '\n');
    }
    let c = ": "@;
    assert(!c.contains('\n'));
    lemma_without_concat(t, c);
    lemma_without_concat(t + c, e.1);
}

proof fn lemma_header_split(a: Seq<(Seq<char>, Seq<char>)>)
    requires
        entries_single_line(a),
    ensures
        split_on("IP Addresses: "@ + address_lines(a), '\n') == seq!["IP Addresses: "@] + Seq::new(
            a.len(),
            |k: int| address_line(a[k]),
        ),
    decreases a.len(),
{
    let h = "IP Addresses: "@;
    if a.len() == 0 {
        reveal_strlit("IP Addresses: ");
        assert(h + address_lines(a) =~= h);
        assert(!h.contains('\n'));
        lemma_split_on_without_sep(h, '\n');
        assert(seq![h] + Seq::new(a.len(), |k: int| address_line(a[k])) =~= seq![h]);
    } else {
        let p = a.drop_last();
        assert(entries_single_line(p)) by {
            assert forall|k: int| 0 <= k < p.len() implies !(#[trigger] p[k]).0.contains('\n')
                && !p[k].1.contains('\n') by {
                assert(p[k] == a[k]);
            }
        }
        lemma_header_split(p);
        let l = address_line(a.last());
        assert(a[a.len() - 1] == a.last());
        lemma_address_line_single(a.last());
        lemma_split_on_without_sep(l, '\n');
        let x = h + address_lines(p);
        assert(h + address_lines(a) =~= x.push('\n') + l);
        lemma_split_on_join(x, '\n', l);
        assert(seq![h] + Seq::new(a.len(), |k: int| address_line(a[k])) =~= seq![h] + Seq::new(
            p.len(),
            |k: int| address_line(p[k]),
        ) + seq![l]);
    }
}

/// When no name, address or status holds a line break, the network page is
/// the header, then one line per address in order (its name cut to 3
/// characters, `: `, the address), then the status line.
pub proof fn law_network_text_lines(a: Seq<(Seq<char>, Seq<char>)>, status: Seq<char>)
    requires
        entries_single_line(a),
        !status.contains('\n'),
    ensures
        split_on(network_text(a, status), '\n') == seq!["IP Addresses: "@] + Seq::new(
            a.len(),
            |k: int| address_line(a[k]),
        ) + seq![status],
        split_on(network_text(a, status), '\n').len() == a.len() + 2,
{
    lemma_header_split(a);
    let x = "IP Addresses: "@ + address_lines(a);
    assert(network_text(a, status) =~= x.push('\n') + status);
    lemma_split_on_join(x, '\n', status);
    lemma_split_on_without_sep(status, '\n');
}

// ---------------------------------------------------------------------------
// Link status
// ---------------------------------------------------------------------------

/// The network name of `nmcli -t -f active,ssid dev wifi` lines: of the last
/// line that starts with `yes:`, what is left with every `yes:` taken out;
/// empty when no line does.
pub open spec fn ssid_of_lines(ls: Seq<Seq<char>>) -> Seq<char>
    decreases ls.len(),
{
    if ls.len() == 0 {
        Seq::empty()
    } else if starts_with(ls.last(), "yes:"@) {
        replace_all(ls.last(), "yes:"@, Seq::empty())
    } else {
        ssid_of_lines(ls.drop_last())
    }
}

/// The network name that `nmcli` reports: empty when it could not be run or failed.
pub open spec fn nmcli_ssid(nmcli: Option<CommandOutput>) -> Seq<char> {
    match nmcli {
        Some(o) => if o.success {
            ssid_of_lines(lines(o.stdout@))
        } else {
            Seq::empty()
        },
        None => Seq::empty(),
    }
}

/// The network name that `nmcli` reports.
pub fn ssid_from_nmcli(nmcli: &Option<CommandOutput>) -> (r: Vec<char>)
    ensures
        r@ == nmcli_ssid(*nmcli),
{
    let mut ssid: Vec<char> = Vec::new();
    match nmcli {
        None => {},
        Some(o) => {
            if o.success {
                let chars = chars_of(o.stdout.as_str());
                let ls = lines_of(&chars);
                let pat = chars_of("yes:");
                proof {
                    reveal_strlit("yes:");
                }
                let empty: Vec<char> = Vec::new();
                for i in 0..ls.len()
                    invariant
                        pat@ == "yes:"@,
                        pat@.len() > 0,
                        empty@ == Seq::<char>::empty(),
                        ssid@ == ssid_of_lines(views(ls@).take(i as int)),
                {
                    let ghost t = views(ls@).take(i + 1);
                    assert(t.drop_last() =~= views(ls@).take(i as int));
                    assert(t.last() == ls@[i as int]@);
                    if starts_with_exec(&ls[i], &pat) {
                        ssid = replace_all_exec(&ls[i], &pat, &empty);
                    }
                }
                assert(views(ls@).take(ls.len() as int) =~= views(ls@));
            }
        },
    }
    ssid
}

/// The signal level in dBm of `iwconfig` text: in the first line that
/// contains `Signal level=` (or an empty line), the third piece between
/// `=` signs, its first field, as an `i32`; -100 when any of these is missing.
pub open spec fn signal_of_text(text: Seq<char>) -> int {
    let line = match find_containing(lines(text), "Signal level="@) {
        Some(l) => l,
        None => Seq::empty(),
    };
    let parts = split_on(line, '=');
    if parts.len() > 2 {
        let fs = fields(parts[2]);
        if fs.len() > 0 {
            match parse_signed32(fs[0]) {
                Some(v) => v,
                None => -100,
            }
        } else {
            -100
        }
    } else {
        -100
    }
}

/// The signal level that `iwconfig` reports: -100 when it could not be run.
pub open spec fn iwconfig_signal(iwconfig: Option<CommandOutput>) -> int {
    match iwconfig {
        Some(o) => signal_of_text(o.stdout@),
        None => -100,
    }
}

/// The signal level that `iwconfig` reports.
pub fn signal_from_iwconfig(iwconfig: &Option<CommandOutput>) -> (r: i32)
    ensures
        r as int == iwconfig_signal(*iwconfig),
{
    match iwconfig {
        None => -100,
        Some(o) => {
            let chars = chars_of(o.stdout.as_str());
            let ls = lines_of(&chars);
            let pat = chars_of("Signal level=");
            let line: Vec<char> = match find_containing_exec(&ls, &pat) {
                Some(i) => crate::text::copy_range(&ls[i], 0, ls[i].len()),
                None => Vec::new(),
            };
            assert(line@ == (match find_containing(lines(o.stdout@), "Signal level="@) {
                Some(l) => l,
                None => Seq::<char>::empty(),
            }));
            let parts = split_chars(&line, '=');
            if parts.len() > 2 {
                assert(views(parts@)[2] == parts@[2]@);
                let fs = fields_of(&parts[2]);
                if fs.len() > 0 {
                    assert(views(fs@)[0] == fs@[0]@);
                    match parse_i32(&fs[0]) {
                        Some(v) => v,
                        None => -100,
                    }
                } else {
                    -100
                }
            } else {
                -100
            }
        },
    }
}

/// How many of five bars a signal level fills.
pub open spec fn bar_level(signal: int) -> int {
    if signal >= -50 {
        5
    } else if signal >= -60 {
        4
    } else if signal >= -70 {
        3
    } else if signal >= -80 {
        2
    } else if signal >= -90 {
        1
    } else {
        0
    }
}

/// Five bars, the first `level` of them filled.
pub open spec fn bars_text(level: int) -> Seq<char> {
    if level == 5 {
        "█████"@
    } else if level == 4 {
        "████░"@
    } else if level == 3 {
        "███░░"@
    } else if level == 2 {
        "██░░░"@
    } else if level == 1 {
        "█░░░░"@
    } else {
        "░░░░░"@
    }
}

/// The bars that show a signal level.
pub fn signal_bars(signal: i32) -> (b: &'static str)
    ensures
        b@ == bars_text(bar_level(signal as int)),
{
    if signal >= -50 {
        "█████"
    } else if signal >= -60 {
        "████░"
    } else if signal >= -70 {
        "███░░"
    } else if signal >= -80 {
        "██░░░"
    } else if signal >= -90 {
        "█░░░░"
    } else {
        "░░░░░"
    }
}

/// The long status line.
pub open spec fn status_line(online: bool, ssid: Seq<char>, signal: int) -> Seq<char> {
    "["@ + (if online {
        "🟢 ↑"@
    } else {
        "🔴 ↓"@
    }) + "] SSID: "@ + pad_right(ssid, 20) + " | "@ + (if online {
        "Online"@
    } else {
        "Offline"@
    }) + " | Signal: "@ + bars_text(bar_level(signal)) + " dBm"@
}

/// The short status line: name, `^` or `-`, signal level.
pub open spec fn short_status_line(online: bool, ssid: Seq<char>, signal: int) -> Seq<char> {
    ssid + ": "@ + (if online {
        "^"@
    } else {
        "-"@
    }) + " "@ + signed_decimal(signal)
}

/// The two status lines for a link state.
pub fn status_lines(online: bool, ssid: &Vec<char>, signal: i32) -> (r: (String, String))
    ensures
        r.0@ == status_line(online, ssid@, signal as int),
        r.1@ == short_status_line(online, ssid@, signal as int),
{
    let mut long = String::from_str("[");
    long.append(if online {
        "🟢 ↑"
    } else {
        "🔴 ↓"
    });
    long.append("] SSID: ");
    append_padded(&mut long, ssid, 20);
    long.append(" | ");
    long.append(if online {
        "Online"
    } else {
        "Offline"
    });
    long.append(" | Signal: ");
    long.append(signal_bars(signal));
    long.append(" dBm");
    let mut short = string_from(ssid);
    short.append(": ");
    short.append(if online {
        "^"
    } else {
        "-"
    });
    short.append(" ");
    short.append(i32_to_string(signal).as_str());
    assert(long@ =~= status_line(online, ssid@, signal as int));
    assert(short@ =~= short_status_line(online, ssid@, signal as int));
    (long, short)
}

/// The status lines of the network page from what `ping` (whether it ran
/// and succeeded), `nmcli` and `iwconfig` reported: the link is online when
/// `ping` succeeded.
pub fn network_status(
    ping: Option<bool>,
    nmcli: &Option<CommandOutput>,
    iwconfig: &Option<CommandOutput>,
) -> (r: (String, String))
    ensures
        ({
            let online = ping == Some(true);
            &&& r.0@ == status_line(online, nmcli_ssid(*nmcli), iwconfig_signal(*iwconfig))
            &&& r.1@ == short_status_line(online, nmcli_ssid(*nmcli), iwconfig_signal(*iwconfig))
        }),
{
    let online = match ping {
        Some(b) => b,
        None => false,
    };
    let ssid = ssid_from_nmcli(nmcli);
    let signal = signal_from_iwconfig(iwconfig);
    status_lines(online, &ssid, signal)
}


/// A stronger signal never shows fewer bars, and without a reading of the
/// signal no bar is filled.
pub proof fn law_bars_monotone(weaker: int, stronger: int)
    requires
        weaker <= stronger,
    ensures
        0 <= bar_level(weaker) <= bar_level(stronger) <= 5,
        bar_level(iwconfig_signal(None)) == 0,
{
}

} // verus!
