//! The information column of the fetch screen: which facts are shown, with
//! which labels, and how each one is read out of the text of the system
//! file (or command output, or environment variable) it comes from.

use vstd::prelude::*;
use crate::decimal::{
    decimal, lemma_parse_decimal_round_trip, parse_decimal_u64, parse_u64, push_decimal,
};
use crate::text::{
    index_of_or_len, lemma_index_of_or_len, strip_cr,
    lemma_byte_len_concat, lemma_byte_len_push, utf8_width,
    dashes, push_dash_per_byte, after_last, byte_len, chars_fitting, exceeds_bytes, field_after, fit_chars, has_prefix,
    last_segment, lemma_fit_chars, lemma_lines_of_end, lines, next_line, nth_word, push_all,
    remove_all, remove_matches, second_field, starts_with, strip_prefix_all, subvec, trim,
    trim_chars, trim_class, trim_start_matches, trim_whitespace, word_at, CharClass,
};

verus! {

/// `PRETTY_NAME=`
pub open spec fn pretty_key() -> Seq<char> {
    seq!['P', 'R', 'E', 'T', 'T', 'Y', '_', 'N', 'A', 'M', 'E', '=']
}

/// `model name`
pub open spec fn model_key() -> Seq<char> {
    seq!['m', 'o', 'd', 'e', 'l', ' ', 'n', 'a', 'm', 'e']
}

/// `MemTotal:`
pub open spec fn mem_total_key() -> Seq<char> {
    seq!['M', 'e', 'm', 'T', 'o', 't', 'a', 'l', ':']
}

/// `MemAvailable:`
pub open spec fn mem_available_key() -> Seq<char> {
    seq!['M', 'e', 'm', 'A', 'v', 'a', 'i', 'l', 'a', 'b', 'l', 'e', ':']
}

fn pretty_key_vec() -> (v: Vec<char>)
    ensures
        v@ == pretty_key(),
{
    vec!['P', 'R', 'E', 'T', 'T', 'Y', '_', 'N', 'A', 'M', 'E', '=']
}

fn model_key_vec() -> (v: Vec<char>)
    ensures
        v@ == model_key(),
{
    vec!['m', 'o', 'd', 'e', 'l', ' ', 'n', 'a', 'm', 'e']
}

fn mem_total_key_vec() -> (v: Vec<char>)
    ensures
        v@ == mem_total_key(),
{
    vec!['M', 'e', 'm', 'T', 'o', 't', 'a', 'l', ':']
}

fn mem_available_key_vec() -> (v: Vec<char>)
    ensures
        v@ == mem_available_key(),
{
    vec!['M', 'e', 'm', 'A', 'v', 'a', 'i', 'l', 'a', 'b', 'l', 'e', ':']
}

// ---------------------------------------------------------------- OS name

/// The value of a `PRETTY_NAME=` line: the key (repeated) stripped, then
/// the surrounding double quotes.
pub open spec fn pretty_value(line: Seq<char>) -> Seq<char> {
    trim_class(strip_prefix_all(line, pretty_key()), CharClass::Exactly('"'))
}

pub open spec fn pretty_name_in(ls: Seq<Seq<char>>) -> Option<Seq<char>>
    decreases ls.len(),
{
    if ls.len() == 0 {
        None
    } else if starts_with(ls[0], pretty_key()) {
        Some(pretty_value(ls[0]))
    } else {
        pretty_name_in(ls.drop_first())
    }
}

/// The OS name that `/etc/os-release` gives: from its first line that
/// starts with `PRETTY_NAME=`; `None` when no line does.
pub open spec fn os_name(os_release: Seq<char>) -> Option<Seq<char>> {
    pretty_name_in(lines(os_release))
}

/// Computes `os_name`.
pub fn os_pretty_name(os_release: &Vec<char>) -> (r: Option<Vec<char>>)
    ensures
        match r {
            Some(v) => os_name(os_release@) == Some(v@),
            None => os_name(os_release@) is None,
        },
{
    let key = pretty_key_vec();
    let quote = CharClass::Exactly('"');
    let mut pos: usize = 0;
    assert(os_release@.skip(0) =~= os_release@);
    while pos < os_release.len()
        invariant
            pos <= os_release.len(),
            key@ == pretty_key(),
            quote == CharClass::Exactly('"'),
            os_name(os_release@) == pretty_name_in(lines(os_release@.skip(pos as int))),
        decreases os_release.len() - pos,
    {
        let (line, next) = next_line(os_release, pos);
        let ghost rest = lines(os_release@.skip(next as int));
        assert((seq![line@] + rest).drop_first() =~= rest);
        assert((seq![line@] + rest)[0] == line@);
        if has_prefix(&line, &key) {
            let stripped = trim_start_matches(&line, &key);
            return Some(trim_chars(&stripped, &quote));
        }
        pos = next;
    }
    proof {
        lemma_lines_of_end(os_release@);
    }
    None
}

// ---------------------------------------------------------------- kernel, shell, uptime

/// The kernel release shown: the output of `uname -r`, trimmed.
pub fn kernel_release(output: &Vec<char>) -> (r: Vec<char>)
    ensures
        r@ == trim(output@),
{
    trim_whitespace(output)
}

/// The shell shown: the last path component of `$SHELL`.
pub fn shell_name(shell: &Vec<char>) -> (r: Vec<char>)
    ensures
        r@ == last_segment(shell@, '/'),
{
    after_last(shell, '/')
}

/// `{hours} hours, {mins} mins`
pub open spec fn uptime_line(hours: u64, mins: u64) -> Seq<char> {
    decimal(hours as nat) + seq![' ', 'h', 'o', 'u', 'r', 's', ',', ' '] + decimal(mins as nat)
        + seq![' ', 'm', 'i', 'n', 's']
}

/// The uptime shown for whole hours and remaining whole minutes.
pub fn uptime_text(hours: u64, mins: u64) -> (r: Vec<char>)
    ensures
        r@ == uptime_line(hours, mins),
{
    let mut r: Vec<char> = Vec::new();
    push_decimal(&mut r, hours);
    let mid: Vec<char> = vec![' ', 'h', 'o', 'u', 'r', 's', ',', ' '];
    push_all(&mut r, &mid);
    push_decimal(&mut r, mins);
    let tail: Vec<char> = vec![' ', 'm', 'i', 'n', 's'];
    push_all(&mut r, &tail);
    assert(r@ =~= uptime_line(hours, mins));
    r
}

// ---------------------------------------------------------------- CPU

/// The CPU name as cleaned up: trimmed, with every `(R)`, then every `(TM)`,
/// then every `CPU ` deleted.
pub open spec fn clean_cpu_name(field: Seq<char>) -> Seq<char> {
    remove_all(
        remove_all(remove_all(trim(field), seq!['(', 'R', ')']), seq!['(', 'T', 'M', ')']),
        seq!['C', 'P', 'U', ' '],
    )
}

/// The line holds a CPU model name: it starts with `model name` and has a `:`.
pub open spec fn is_model_line(line: Seq<char>) -> bool {
    starts_with(line, model_key()) && second_field(line, ':') is Some
}

pub open spec fn cpu_name_in(ls: Seq<Seq<char>>) -> Option<Seq<char>>
    decreases ls.len(),
{
    if ls.len() == 0 {
        None
    } else if is_model_line(ls[0]) {
        Some(clean_cpu_name(second_field(ls[0], ':').unwrap()))
    } else {
        cpu_name_in(ls.drop_first())
    }
}

/// The CPU model that `/proc/cpuinfo` gives, before shortening: the text
/// between the first and the second `:` of its first model-name line.
pub open spec fn cpu_name(cpuinfo: Seq<char>) -> Option<Seq<char>> {
    cpu_name_in(lines(cpuinfo))
}

/// Computes `cpu_name`.
pub fn cpu_model_name(cpuinfo: &Vec<char>) -> (r: Option<Vec<char>>)
    ensures
        match r {
            Some(v) => cpu_name(cpuinfo@) == Some(v@),
            None => cpu_name(cpuinfo@) is None,
        },
{
    let key = model_key_vec();
    let mut pos: usize = 0;
    assert(cpuinfo@.skip(0) =~= cpuinfo@);
    while pos < cpuinfo.len()
        invariant
            pos <= cpuinfo.len(),
            key@ == model_key(),
            cpu_name(cpuinfo@) == cpu_name_in(lines(cpuinfo@.skip(pos as int))),
        decreases cpuinfo.len() - pos,
    {
        let (line, next) = next_line(cpuinfo, pos);
        let ghost rest = lines(cpuinfo@.skip(next as int));
        assert((seq![line@] + rest).drop_first() =~= rest);
        assert((seq![line@] + rest)[0] == line@);
        if has_prefix(&line, &key) {
            match field_after(&line, ':') {
                Some(field) => {
                    let t = trim_whitespace(&field);
                    let p1: Vec<char> = vec!['(', 'R', ')'];
                    let p2: Vec<char> = vec!['(', 'T', 'M', ')'];
                    let p3: Vec<char> = vec!['C', 'P', 'U', ' '];
                    let a = remove_matches(&t, &p1);
                    let b = remove_matches(&a, &p2);
                    let c = remove_matches(&b, &p3);
                    return Some(c);
                },
                None => {},
            }
        }
        pos = next;
    }
    proof {
        lemma_lines_of_end(cpuinfo@);
    }
    None
}

/// Whether shortening `name` cuts it at a character boundary: the name
/// fits in 35 bytes, or its first 32 bytes end at a character boundary.
pub open spec fn cpu_cut_is_clean(name: Seq<char>) -> bool {
    byte_len(name) <= 35 || byte_len(name.take(fit_chars(name, 32) as int)) == 32
}

/// The CPU name as shown: names of more than 35 bytes are cut to their
/// first 32 bytes and get `...`.
pub open spec fn shortened_cpu_name(name: Seq<char>) -> Seq<char> {
    if byte_len(name) > 35 {
        name.take(fit_chars(name, 32) as int) + seq!['.', '.', '.']
    } else {
        name
    }
}

/// Decides `cpu_cut_is_clean`.
pub fn cpu_name_cuts_cleanly(name: &Vec<char>) -> (b: bool)
    ensures
        b == cpu_cut_is_clean(name@),
{
    if !exceeds_bytes(name, 35) {
        return true;
    }
    let k = chars_fitting(name, 32);
    proof {
        lemma_fit_chars(name@, 32);
    }
    let prefix = subvec(name, 0, k);
    proof {
        assert(prefix@ =~= name@.take(k as int));
    }
    exceeds_bytes(&prefix, 31)
}

/// Computes `shortened_cpu_name`. Cutting inside a character is where the
/// string slice would panic, so the cut must be clean.
pub fn shorten_cpu_name(name: &Vec<char>) -> (r: Vec<char>)
    requires
        cpu_cut_is_clean(name@),
    ensures
        r@ == shortened_cpu_name(name@),
{
    if !exceeds_bytes(name, 35) {
        return subvec(name, 0, name.len());
    }
    let k = chars_fitting(name, 32);
    proof {
        lemma_fit_chars(name@, 32);
    }
    let mut r = subvec(name, 0, k);
    r.push('.');
    r.push('.');
    r.push('.');
    assert(r@ =~= shortened_cpu_name(name@));
    r
}

// ---------------------------------------------------------------- memory

/// The value a line gives to a counter: its second word parsed, 0 when that
/// does not parse, the old value when there is no second word.
pub open spec fn counter_value(line: Seq<char>, old_value: u64) -> u64 {
    match nth_word(line, 1) {
        Some(w) => match parse_u64(w) {
            Some(v) => v,
            None => 0,
        },
        None => old_value,
    }
}

/// The `(MemTotal, MemAvailable)` counters after reading `ls` in order,
/// starting from `(total, available)`: the last line of each kind wins.
pub open spec fn mem_scan(ls: Seq<Seq<char>>, total: u64, available: u64) -> (u64, u64)
    decreases ls.len(),
{
    if ls.len() == 0 {
        (total, available)
    } else if starts_with(ls[0], mem_total_key()) {
        mem_scan(ls.drop_first(), counter_value(ls[0], total), available)
    } else if starts_with(ls[0], mem_available_key()) {
        mem_scan(ls.drop_first(), total, counter_value(ls[0], available))
    } else {
        mem_scan(ls.drop_first(), total, available)
    }
}

/// The `(MemTotal, MemAvailable)` values, in KiB, that `/proc/meminfo` gives.
pub open spec fn mem_totals(meminfo: Seq<char>) -> (u64, u64) {
    mem_scan(lines(meminfo), 0, 0)
}

fn counter_from_line(line: &Vec<char>, old_value: u64) -> (v: u64)
    ensures
        v == counter_value(line@, old_value),
{
    match word_at(line, 1) {
        Some(w) => match parse_decimal_u64(&w) {
            Some(v) => v,
            None => 0,
        },
        None => old_value,
    }
}

/// Computes `mem_totals`.
pub fn memory_totals(meminfo: &Vec<char>) -> (r: (u64, u64))
    ensures
        r == mem_totals(meminfo@),
{
    let k_total = mem_total_key_vec();
    let k_avail = mem_available_key_vec();
    let mut total: u64 = 0;
    let mut available: u64 = 0;
    let mut pos: usize = 0;
    assert(meminfo@.skip(0) =~= meminfo@);
    while pos < meminfo.len()
        invariant
            pos <= meminfo.len(),
            k_total@ == mem_total_key(),
            k_avail@ == mem_available_key(),
            mem_totals(meminfo@) == mem_scan(
                lines(meminfo@.skip(pos as int)),
                total,
                available,
            ),
        decreases meminfo.len() - pos,
    {
        let (line, next) = next_line(meminfo, pos);
        let ghost rest = lines(meminfo@.skip(next as int));
        assert((seq![line@] + rest).drop_first() =~= rest);
        assert((seq![line@] + rest)[0] == line@);
        if has_prefix(&line, &k_total) {
            total = counter_from_line(&line, total);
        } else if has_prefix(&line, &k_avail) {
            available = counter_from_line(&line, available);
        }
        pos = next;
    }
    proof {
        lemma_lines_of_end(meminfo@);
    }
    (total, available)
}

/// `{used} MiB / {total} MiB`, from KiB counters.
pub open spec fn memory_line(total: u64, available: u64) -> Seq<char> {
    decimal(((total - available) / 1024) as nat) + seq![' ', 'M', 'i', 'B', ' ', '/', ' ']
        + decimal((total / 1024) as nat) + seq![' ', 'M', 'i', 'B']
}

/// The memory entry shown for the counters: `None` when the total is 0.
/// The used amount is `total - available`, which must not underflow.
pub fn memory_text(total: u64, available: u64) -> (r: Option<Vec<char>>)
    requires
        total > 0 ==> available <= total,
    ensures
        match r {
            Some(v) => total > 0 && v@ == memory_line(total, available),
            None => total == 0,
        },
{
    if total == 0 {
        return None;
    }
    let used = total - available;
    let mut r: Vec<char> = Vec::new();
    push_decimal(&mut r, used / 1024);
    let mid: Vec<char> = vec![' ', 'M', 'i', 'B', ' ', '/', ' '];
    push_all(&mut r, &mid);
    push_decimal(&mut r, total / 1024);
    let tail: Vec<char> = vec![' ', 'M', 'i', 'B'];
    push_all(&mut r, &tail);
    assert(r@ =~= memory_line(total, available));
    Some(r)
}


// ---------------------------------------------------------------- the whole column

/// Raw text of every source the information column reads; `None` where the
/// file, command or variable could not be read.
pub struct SystemSources {
    /// `$USER`
    pub user: Option<Vec<char>>,
    /// Contents of `/etc/hostname`.
    pub hostname: Option<Vec<char>>,
    /// Contents of `/etc/os-release`.
    pub os_release: Option<Vec<char>>,
    /// Standard output of `uname -r`.
    pub kernel: Option<Vec<char>>,
    /// Uptime as whole hours and the whole minutes past them.
    pub uptime: Option<(u64, u64)>,
    /// `$SHELL`
    pub shell: Option<Vec<char>>,
    /// `$TERM`
    pub term: Option<Vec<char>>,
    /// Contents of `/proc/cpuinfo`.
    pub cpuinfo: Option<Vec<char>>,
    /// Contents of `/proc/meminfo`.
    pub meminfo: Option<Vec<char>>,
}

pub open spec fn vopt(o: Option<Vec<char>>) -> Option<Seq<char>> {
    match o {
        Some(v) => Some(v@),
        None => None,
    }
}

/// An entry of the column: a label (empty for the header lines) and a value.
pub type Entry = (Seq<char>, Seq<char>);

/// The user name shown: `$USER`, or `user`.
pub open spec fn shown_user(user: Option<Seq<char>>) -> Seq<char> {
    match user {
        Some(u) => u,
        None => seq!['u', 's', 'e', 'r'],
    }
}

/// The host name shown: `/etc/hostname` (or `localhost`), trimmed.
pub open spec fn shown_host(hostname: Option<Seq<char>>) -> Seq<char> {
    trim(
        match hostname {
            Some(h) => h,
            None => seq!['l', 'o', 'c', 'a', 'l', 'h', 'o', 's', 't'],
        },
    )
}

/// `user@host`, then a rule of one dash per byte of that line.
pub open spec fn header_entries(user: Seq<char>, host: Seq<char>) -> Seq<Entry> {
    seq![
        (seq![], user + seq!['@'] + host),
        (seq![], dashes(byte_len(user) + byte_len(host) + 1)),
    ]
}

pub open spec fn optional_entry(label: Seq<char>, value: Option<Seq<char>>) -> Seq<Entry> {
    match value {
        Some(v) => seq![(label, v)],
        None => seq![],
    }
}

pub open spec fn os_value(src: Option<Seq<char>>) -> Option<Seq<char>> {
    match src {
        Some(t) => os_name(t),
        None => None,
    }
}

pub open spec fn kernel_value(src: Option<Seq<char>>) -> Option<Seq<char>> {
    match src {
        Some(t) => Some(trim(t)),
        None => None,
    }
}

pub open spec fn uptime_value(src: Option<(u64, u64)>) -> Option<Seq<char>> {
    match src {
        Some((h, m)) => Some(uptime_line(h, m)),
        None => None,
    }
}

pub open spec fn shell_value(src: Option<Seq<char>>) -> Option<Seq<char>> {
    match src {
        Some(t) => Some(last_segment(t, '/')),
        None => None,
    }
}

pub open spec fn cpu_value(src: Option<Seq<char>>) -> Option<Seq<char>> {
    match src {
        Some(t) => match cpu_name(t) {
            Some(n) => Some(shortened_cpu_name(n)),
            None => None,
        },
        None => None,
    }
}

pub open spec fn memory_value(src: Option<Seq<char>>) -> Option<Seq<char>> {
    match src {
        Some(t) => {
            let (total, available) = mem_totals(t);
            if total > 0 {
                Some(memory_line(total, available))
            } else {
                None
            }
        },
        None => None,
    }
}

/// The sources give a column without a panic: the CPU name is cut at a
/// character boundary, and the available memory is at most the total.
pub open spec fn sources_displayable(src: &SystemSources) -> bool {
    &&& (match vopt(src.cpuinfo) {
        Some(t) => match cpu_name(t) {
            Some(n) => cpu_cut_is_clean(n),
            None => true,
        },
        None => true,
    })
    &&& (match vopt(src.meminfo) {
        Some(t) => mem_totals(t).0 > 0 ==> mem_totals(t).1 <= mem_totals(t).0,
        None => true,
    })
}

/// The information column, in display order: the header lines, then OS,
/// Kernel, Uptime, Shell, Terminal, CPU and Memory for each one available.
pub open spec fn system_entries(src: &SystemSources) -> Seq<Entry> {
    header_entries(shown_user(vopt(src.user)), shown_host(vopt(src.hostname))) + optional_entry(
        seq!['O', 'S'],
        os_value(vopt(src.os_release)),
    ) + optional_entry(seq!['K', 'e', 'r', 'n', 'e', 'l'], kernel_value(vopt(src.kernel)))
        + optional_entry(seq!['U', 'p', 't', 'i', 'm', 'e'], uptime_value(src.uptime))
        + optional_entry(seq!['S', 'h', 'e', 'l', 'l'], shell_value(vopt(src.shell)))
        + optional_entry(seq!['T', 'e', 'r', 'm', 'i', 'n', 'a', 'l'], vopt(src.term))
        + optional_entry(seq!['C', 'P', 'U'], cpu_value(vopt(src.cpuinfo)))
        + optional_entry(seq!['M', 'e', 'm', 'o', 'r', 'y'], memory_value(vopt(src.meminfo)))
}

/// The entries as sequences.
pub open spec fn entries_view(v: Seq<(Vec<char>, Vec<char>)>) -> Seq<Entry> {
    v.map_values(|p: (Vec<char>, Vec<char>)| (p.0@, p.1@))
}

/// Decides `sources_displayable`.
pub fn sources_are_displayable(src: &SystemSources) -> (b: bool)
    ensures
        b == sources_displayable(src),
{
    let cpu_ok = match &src.cpuinfo {
        Some(t) => match cpu_model_name(t) {
            Some(n) => cpu_name_cuts_cleanly(&n),
            None => true,
        },
        None => true,
    };
    let mem_ok = match &src.meminfo {
        Some(t) => {
            let (total, available) = memory_totals(t);
            total == 0 || available <= total
        },
        None => true,
    };
    cpu_ok && mem_ok
}

fn push_entry(out: &mut Vec<(Vec<char>, Vec<char>)>, label: Vec<char>, value: Vec<char>)
    ensures
        entries_view(final(out)@) == entries_view(old(out)@).push((label@, value@)),
{
    let ghost l = label@;
    let ghost v = value@;
    out.push((label, value));
    assert(entries_view(out@) =~= entries_view(old(out)@).push((l, v)));
}

fn push_optional(out: &mut Vec<(Vec<char>, Vec<char>)>, label: Vec<char>, value: Option<Vec<char>>)
    ensures
        entries_view(final(out)@) == entries_view(old(out)@) + optional_entry(label@, vopt(value)),
{
    match value {
        Some(v) => {
            push_entry(out, label, v);
            assert(entries_view(old(out)@).push((label@, v@)) =~= entries_view(old(out)@) + seq![
                (label@, v@),
            ]);
        },
        None => {
            assert(entries_view(out@) =~= entries_view(out@) + Seq::<Entry>::empty());
        },
    }
}

/// The information column for the given sources (the computing part of
/// reading the system information).
pub fn system_info(src: &SystemSources) -> (r: Vec<(Vec<char>, Vec<char>)>)
    requires
        sources_displayable(src),
    ensures
        entries_view(r@) == system_entries(src),
{
    let user: Vec<char> = match &src.user {
        Some(u) => subvec(u, 0, u.len()),
        None => vec!['u', 's', 'e', 'r'],
    };
    let host_raw: Vec<char> = match &src.hostname {
        Some(h) => subvec(h, 0, h.len()),
        None => vec!['l', 'o', 'c', 'a', 'l', 'h', 'o', 's', 't'],
    };
    proof {
        assert(user@ =~= shown_user(vopt(src.user)));
        assert(host_raw@ =~= (match vopt(src.hostname) {
            Some(h) => h,
            None => seq!['l', 'o', 'c', 'a', 'l', 'h', 'o', 's', 't'],
        }));
    }
    let host = trim_whitespace(&host_raw);
    let mut out: Vec<(Vec<char>, Vec<char>)> = Vec::new();

    let mut first: Vec<char> = Vec::new();
    push_all(&mut first, &user);
    first.push('@');
    push_all(&mut first, &host);
    let mut rule: Vec<char> = Vec::new();
    push_dash_per_byte(&mut rule, &user);
    push_dash_per_byte(&mut rule, &host);
    rule.push('-');
    proof {
        assert(first@ =~= user@ + seq!['@'] + host@);
        assert(dashes(byte_len(user@)) + dashes(byte_len(host@)) + seq!['-'] =~= dashes(
            byte_len(user@) + byte_len(host@) + 1,
        ));
        assert(Seq::<char>::empty() + dashes(byte_len(user@)) + dashes(byte_len(host@)) =~= dashes(
            byte_len(user@),
        ) + dashes(byte_len(host@)));
        assert(rule@ =~= dashes(byte_len(user@) + byte_len(host@) + 1));
    }
    push_entry(&mut out, Vec::new(), first);
    push_entry(&mut out, Vec::new(), rule);
    assert(entries_view(out@) =~= header_entries(user@, host@));

    let os: Option<Vec<char>> = match &src.os_release {
        Some(t) => os_pretty_name(t),
        None => None,
    };
    push_optional(&mut out, vec!['O', 'S'], os);

    let kernel: Option<Vec<char>> = match &src.kernel {
        Some(t) => Some(kernel_release(t)),
        None => None,
    };
    push_optional(&mut out, vec!['K', 'e', 'r', 'n', 'e', 'l'], kernel);

    let uptime: Option<Vec<char>> = match src.uptime {
        Some((h, m)) => Some(uptime_text(h, m)),
        None => None,
    };
    push_optional(&mut out, vec!['U', 'p', 't', 'i', 'm', 'e'], uptime);

    let shell: Option<Vec<char>> = match &src.shell {
        Some(t) => Some(shell_name(t)),
        None => None,
    };
    push_optional(&mut out, vec!['S', 'h', 'e', 'l', 'l'], shell);

    let term: Option<Vec<char>> = match &src.term {
        Some(t) => Some(subvec(t, 0, t.len())),
        None => None,
    };
    proof {
        if src.term is Some {
            let t = src.term.unwrap();
            assert(t@.subrange(0, t@.len() as int) =~= t@);
        }
    }
    push_optional(&mut out, vec!['T', 'e', 'r', 'm', 'i', 'n', 'a', 'l'], term);

    let cpu: Option<Vec<char>> = match &src.cpuinfo {
        Some(t) => match cpu_model_name(t) {
            Some(n) => Some(shorten_cpu_name(&n)),
            None => None,
        },
        None => None,
    };
    push_optional(&mut out, vec!['C', 'P', 'U'], cpu);

    let memory: Option<Vec<char>> = match &src.meminfo {
        Some(t) => {
            let (total, available) = memory_totals(t);
            memory_text(total, available)
        },
        None => None,
    };
    push_optional(&mut out, vec!['M', 'e', 'm', 'o', 'r', 'y'], memory);
    out
}


// ---------------------------------------------------------------- laws

/// The rule under the `user@host` line has one dash per byte of that line.
pub proof fn lemma_rule_matches_header(user: Seq<char>, host: Seq<char>)
    ensures
        header_entries(user, host)[1].1.len() == byte_len(header_entries(user, host)[0].1),
{
    lemma_byte_len_push(user, '@');
    assert(user + seq!['@'] =~= user.push('@'));
    lemma_byte_len_concat(user + seq!['@'], host);
}

/// A shown CPU name takes at most 35 bytes, and a name that needs no
/// shortening is shown as it is.
pub proof fn lemma_cpu_name_fits(name: Seq<char>)
    requires
        cpu_cut_is_clean(name),
    ensures
        byte_len(shortened_cpu_name(name)) <= 35,
        byte_len(name) <= 35 ==> shortened_cpu_name(name) == name,
        byte_len(name) > 35 ==> {
            let r = shortened_cpu_name(name);
            &&& byte_len(r) == 35
            &&& r.len() >= 3
            &&& r.subrange(r.len() - 3, r.len() as int) == seq!['.', '.', '.']
            &&& r.take(r.len() - 3) == name.take(r.len() - 3)
            &&& byte_len(r.take(r.len() - 3)) == 32
        },
{
    if byte_len(name) > 35 {
        let k = fit_chars(name, 32) as int;
        lemma_fit_chars(name, 32);
        let dots: Seq<char> = seq!['.', '.', '.'];
        lemma_byte_len_concat(name.take(k), dots);
        let d1 = dots.drop_first();
        let d2 = d1.drop_first();
        let d3 = d2.drop_first();
        assert(d3.len() == 0);
        assert(byte_len(d3) == 0);
        assert(d2[0] == '.' && d1[0] == '.' && dots[0] == '.');
        assert(utf8_width('.') == 1);
        assert(byte_len(d2) == 1);
        assert(byte_len(d1) == 2);
        assert(byte_len(dots) == 3);
        let r = shortened_cpu_name(name);
        assert(r.subrange(r.len() - 3, r.len() as int) =~= dots);
        assert(r.take(r.len() - 3) =~= name.take(k));
    }
}


/// The uptime reads `{hours} hours, {mins} mins` with the numbers as given;
/// the text before the first space reads back as the hours.
pub proof fn lemma_uptime_line(hours: u64, mins: u64)
    ensures
        uptime_line(hours, mins) == decimal(hours as nat) + seq![' ', 'h', 'o', 'u', 'r', 's', ',', ' ']
            + decimal(mins as nat) + seq![' ', 'm', 'i', 'n', 's'],
        parse_u64(uptime_line(hours, mins).take(decimal(hours as nat).len() as int)) == Some(hours),
        uptime_line(hours, mins)[decimal(hours as nat).len() as int] == ' ',
        parse_u64(
            uptime_line(hours, mins).subrange(
                decimal(hours as nat).len() + 8 as int,
                decimal(hours as nat).len() + 8 + decimal(mins as nat).len() as int,
            ),
        ) == Some(mins),
{
    let t = uptime_line(hours, mins);
    let k = decimal(hours as nat).len() as int;
    assert(t.take(k) =~= decimal(hours as nat));
    assert(t.subrange(k + 8, k + 8 + decimal(mins as nat).len()) =~= decimal(mins as nat));
    lemma_parse_decimal_round_trip(hours);
    lemma_parse_decimal_round_trip(mins);
}

/// The memory entry reads `{used} MiB / {total} MiB` in whole MiB, used
/// being total less available.
pub proof fn lemma_memory_line(total: u64, available: u64)
    requires
        available <= total,
    ensures
        memory_line(total, available) == decimal(((total - available) / 1024) as nat) + seq![
            ' ',
            'M',
            'i',
            'B',
            ' ',
            '/',
            ' ',
        ] + decimal((total / 1024) as nat) + seq![' ', 'M', 'i', 'B'],
        parse_u64(
            memory_line(total, available).take(
                decimal(((total - available) / 1024) as nat).len() as int,
            ),
        ) == Some(((total - available) / 1024) as u64),
{
    let used = ((total - available) / 1024) as u64;
    let t = memory_line(total, available);
    assert(t.take(decimal(used as nat).len() as int) =~= decimal(used as nat));
    lemma_parse_decimal_round_trip(used);
}

/// The header reads `user@host`.
pub proof fn lemma_header_line(user: Seq<char>, host: Seq<char>)
    ensures
        header_entries(user, host)[0] == (Seq::<char>::empty(), user + seq!['@'] + host),
        header_entries(user, host)[1].1 == Seq::new(
            byte_len(user) + byte_len(host) + 1,
            |i: int| '-',
        ),
{
}

/// Only a line that starts with the whole key `model name` and has a `:`
/// gives the CPU name; its name is the text after the first `:` up to the
/// next one, trimmed, with `(R)`, `(TM)` and `CPU ` deleted in that order.
pub proof fn lemma_model_line(line: Seq<char>)
    ensures
        is_model_line(line) ==> starts_with(line, seq!['m', 'o', 'd', 'e', 'l', ' ', 'n', 'a', 'm', 'e']),
        is_model_line(line) == (starts_with(line, seq!['m', 'o', 'd', 'e', 'l', ' ', 'n', 'a', 'm', 'e'])
            && second_field(line, ':') is Some),
        is_model_line(line) ==> cpu_name_in(seq![line]) == Some(
            remove_all(
                remove_all(
                    remove_all(trim(second_field(line, ':').unwrap()), seq!['(', 'R', ')']),
                    seq!['(', 'T', 'M', ')'],
                ),
                seq!['C', 'P', 'U', ' '],
            ),
        ),
{
    assert(model_key() =~= seq!['m', 'o', 'd', 'e', 'l', ' ', 'n', 'a', 'm', 'e']);
}

proof fn lemma_newline_index(l: Seq<char>, rest: Seq<char>)
    requires
        forall|i: int| 0 <= i < l.len() ==> l[i] != '\n',
    ensures
        index_of_or_len(l + seq!['\n'] + rest, '\n') == l.len(),
    decreases l.len(),
{
    let t = l + seq!['\n'] + rest;
    if l.len() > 0 {
        assert(t.drop_first() =~= l.drop_first() + seq!['\n'] + rest);
        lemma_newline_index(l.drop_first(), rest);
    }
}

/// A line of `/proc/cpuinfo` that does not start with `model name`, such as
/// `model\t\t: 142` or `cpu family\t: 6`, never changes the CPU name: the
/// name of the text with that line put in front is the name of the rest.
pub proof fn lemma_other_lines_ignored(line: Seq<char>, rest: Seq<char>)
    requires
        forall|i: int| 0 <= i < line.len() ==> line[i] != '\n',
        !starts_with(line, seq!['m', 'o', 'd', 'e', 'l', ' ', 'n', 'a', 'm', 'e']),
    ensures
        cpu_name(line + seq!['\n'] + rest) == cpu_name(rest),
{
    let key = seq!['m', 'o', 'd', 'e', 'l', ' ', 'n', 'a', 'm', 'e'];
    assert(model_key() =~= key);
    let t = line + seq!['\n'] + rest;
    lemma_newline_index(line, rest);
    assert(t.take(line.len() as int) =~= line);
    assert(t.skip(line.len() + 1 as int) =~= rest);
    assert(t.len() > 0);
    assert(lines(t) == seq![strip_cr(line)] + lines(rest));
    let l2 = strip_cr(line);
    if starts_with(l2, key) {
        assert(l2.len() <= line.len());
        assert(line.take(key.len() as int) =~= l2.take(key.len() as int));
    }
    assert(!is_model_line(l2));
    assert((seq![l2] + lines(rest)).drop_first() =~= lines(rest));
}


/// `PRETTY_NAME=`, written out.
pub open spec fn pretty_name_key() -> Seq<char> {
    seq!['P', 'R', 'E', 'T', 'T', 'Y', '_', 'N', 'A', 'M', 'E', '=']
}

/// The OS name comes from the first line starting with `PRETTY_NAME=`:
/// such a line gives its value with the key and the surrounding double
/// quotes removed; any other line is skipped.
pub proof fn lemma_os_lines(line: Seq<char>, rest: Seq<Seq<char>>)
    ensures
        starts_with(line, pretty_name_key()) ==> pretty_name_in(seq![line] + rest) == Some(
            trim_class(strip_prefix_all(line, pretty_name_key()), CharClass::Exactly('"')),
        ),
        !starts_with(line, pretty_name_key()) ==> pretty_name_in(seq![line] + rest)
            == pretty_name_in(rest),
        pretty_name_in(Seq::<Seq<char>>::empty()) is None,
{
    assert(pretty_key() =~= pretty_name_key());
    assert((seq![line] + rest).drop_first() =~= rest);
    assert((seq![line] + rest)[0] == line);
}

/// Reading `/proc/meminfo`: a `MemTotal:` line sets the total and a
/// `MemAvailable:` line the available memory, each to the second word of
/// the line read as a number (0 when it is not one, unchanged when there is
/// no second word); other lines change nothing.
pub proof fn lemma_mem_lines(line: Seq<char>, rest: Seq<Seq<char>>, total: u64, available: u64)
    ensures
        ({
            let key_total = seq!['M', 'e', 'm', 'T', 'o', 't', 'a', 'l', ':'];
            let key_avail = seq!['M', 'e', 'm', 'A', 'v', 'a', 'i', 'l', 'a', 'b', 'l', 'e', ':'];
            let value = |old: u64|
                match nth_word(line, 1) {
                    Some(w) => match parse_u64(w) {
                        Some(v) => v,
                        None => 0u64,
                    },
                    None => old,
                };
            &&& starts_with(line, key_total) ==> mem_scan(seq![line] + rest, total, available)
                == mem_scan(rest, value(total), available)
            &&& starts_with(line, key_avail) ==> mem_scan(seq![line] + rest, total, available)
                == mem_scan(rest, total, value(available))
            &&& !starts_with(line, key_total) && !starts_with(line, key_avail) ==> mem_scan(
                seq![line] + rest,
                total,
                available,
            ) == mem_scan(rest, total, available)
        }),
        mem_scan(Seq::<Seq<char>>::empty(), total, available) == (total, available),
{
    let key_total = seq!['M', 'e', 'm', 'T', 'o', 't', 'a', 'l', ':'];
    let key_avail = seq!['M', 'e', 'm', 'A', 'v', 'a', 'i', 'l', 'a', 'b', 'l', 'e', ':'];
    assert(mem_total_key() =~= key_total);
    assert(mem_available_key() =~= key_avail);
    assert((seq![line] + rest).drop_first() =~= rest);
    assert((seq![line] + rest)[0] == line);
    if starts_with(line, key_avail) {
        assert(line[3] == 'A');
        assert(!starts_with(line, key_total)) by {
            if starts_with(line, key_total) {
                assert(line.take(9)[3] == 'T');
            }
        }
    }
}

/// With every source giving a value, the column shows, in this order, the
/// `user@host` line, its rule, then OS, Kernel, Uptime, Shell, Terminal,
/// CPU and Memory.
pub proof fn lemma_column_labels(src: &SystemSources)
    requires
        os_value(vopt(src.os_release)) is Some,
        src.kernel is Some,
        src.uptime is Some,
        src.shell is Some,
        src.term is Some,
        cpu_value(vopt(src.cpuinfo)) is Some,
        memory_value(vopt(src.meminfo)) is Some,
    ensures
        system_entries(src).len() == 9,
        system_entries(src).map_values(|e: Entry| e.0) == seq![
            Seq::<char>::empty(),
            Seq::<char>::empty(),
            seq!['O', 'S'],
            seq!['K', 'e', 'r', 'n', 'e', 'l'],
            seq!['U', 'p', 't', 'i', 'm', 'e'],
            seq!['S', 'h', 'e', 'l', 'l'],
            seq!['T', 'e', 'r', 'm', 'i', 'n', 'a', 'l'],
            seq!['C', 'P', 'U'],
            seq!['M', 'e', 'm', 'o', 'r', 'y'],
        ],
        system_entries(src)[2].1 == os_value(vopt(src.os_release)).unwrap(),
        system_entries(src)[3].1 == trim(src.kernel.unwrap()@),
        system_entries(src)[4].1 == uptime_line(src.uptime.unwrap().0, src.uptime.unwrap().1),
        system_entries(src)[5].1 == last_segment(src.shell.unwrap()@, '/'),
        system_entries(src)[6].1 == src.term.unwrap()@,
        system_entries(src)[7].1 == cpu_value(vopt(src.cpuinfo)).unwrap(),
        system_entries(src)[8].1 == memory_value(vopt(src.meminfo)).unwrap(),
{
    let e = system_entries(src);
    assert(e.map_values(|e: Entry| e.0) =~= seq![
        Seq::<char>::empty(),
        Seq::<char>::empty(),
        seq!['O', 'S'],
        seq!['K', 'e', 'r', 'n', 'e', 'l'],
        seq!['U', 'p', 't', 'i', 'm', 'e'],
        seq!['S', 'h', 'e', 'l', 'l'],
        seq!['T', 'e', 'r', 'm', 'i', 'n', 'a', 'l'],
        seq!['C', 'P', 'U'],
        seq!['M', 'e', 'm', 'o', 'r', 'y'],
    ]);
}

} // verus!
