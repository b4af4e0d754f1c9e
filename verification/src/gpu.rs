//! GPU devices, and the parsers for the reports of each vendor's CLI tool
//! (`nvidia-smi`, `rocm-smi`, `system_profiler`).

use vstd::prelude::*;
use crate::order::{
    entries_map, entry_keys, keyed_view, lemma_entry_keys, lex_le, lookup_sorted, strictly_sorted,
    upsert_sorted,
};
use crate::text::{
    ascii_lower, ascii_lower_exec, chars_of, contains, contains_exec, first_word, first_word_exec,
    find, find_exec, lines, lines_exec, parse_uint, parse_uint_exec, split_char, split_char_exec, starts_with,
    string_of, trim, trim_end, trimmed, views, slice_of,
};
use crate::units::{mib_value, parse_mib};
use crate::models::{or_empty, strip_trailing, strip_trailing_exec};

verus! {

/// A single detected GPU device.
#[derive(Debug, Clone, PartialEq, Eq)]
pub struct GpuDevice {
    /// Human-readable device name (e.g. "NVIDIA GeForce RTX 4090").
    pub name: String,
    /// VRAM in MiB (0 when unknown).
    pub vram_mib: u64,
    /// CUDA compute capability (e.g. "8.9"); empty for other backends.
    pub compute_capability: String,
}

/// A device as (name, VRAM in MiB, compute capability).
pub type DeviceView = (Seq<char>, u64, Seq<char>);

impl View for GpuDevice {
    type V = DeviceView;

    open spec fn view(&self) -> DeviceView {
        (self.name@, self.vram_mib, self.compute_capability@)
    }
}

/// The views of a sequence of devices.
pub open spec fn device_views(v: Seq<GpuDevice>) -> Seq<DeviceView> {
    v.map_values(|d: GpuDevice| d@)
}

/// The present entries of a sequence of optional values, in order.
pub open spec fn somes<T>(s: Seq<Option<T>>) -> Seq<T>
    decreases s.len(),
{
    if s.len() == 0 {
        Seq::<T>::empty()
    } else {
        let r = somes(s.drop_last());
        match s.last() {
            Some(x) => r.push(x),
            None => r,
        }
    }
}

/// `Option::unwrap_or(0)` on a parsed unsigned value.
pub open spec fn or_zero(v: Option<nat>) -> u64 {
    match v {
        Some(n) => n as u64,
        None => 0,
    }
}

// ── running the tools ────────────────────────────────────────────────────────

/// What a tool printed, as the parsers read it: its standard output then its
/// standard error, trimmed; `None` when that is empty.
pub fn tool_output(stdout: &str, stderr: &str) -> (r: Option<String>)
    ensures
        trim(stdout@ + stderr@).len() == 0 ==> r is None,
        trim(stdout@ + stderr@).len() > 0 ==> r is Some && r->0@ == trim(stdout@ + stderr@),
{
    let mut all = chars_of(stdout);
    let mut err = chars_of(stderr);
    all.append(&mut err);
    let t = trimmed(&all);
    if t.len() == 0 {
        None
    } else {
        Some(string_of(t.as_slice()))
    }
}

// ── NVIDIA ───────────────────────────────────────────────────────────────────

/// Where `nvidia-smi` is looked for: on `PATH`, and on Windows also at its
/// usual place, which is not always on `PATH`.
pub fn nvidia_smi_binaries(windows: bool) -> (r: Vec<&'static str>)
    ensures
        !windows ==> r.len() == 1 && r[0]@ == "nvidia-smi"@,
        windows ==> r.len() == 2 && r[0]@ == "nvidia-smi"@ && r[1]@ == "C:\\Windows\\System32\\nvidia-smi.exe"@,
{
    let mut r: Vec<&'static str> = Vec::new();
    r.push("nvidia-smi");
    if windows {
        r.push("C:\\Windows\\System32\\nvidia-smi.exe");
    }
    r
}

/// The device that one line of `nvidia-smi --query-gpu=name,memory.total,compute_cap
/// --format=csv,noheader,nounits` describes, if any: `NAME, <MiB>, <cc>`.
pub open spec fn nvidia_line(line: Seq<char>) -> Option<DeviceView> {
    let l = trim(line);
    let parts = split_char(l, ',');
    let name = trim(parts[0]);
    if l.len() == 0 || name.len() == 0 {
        None
    } else {
        let vram = if parts.len() > 1 {
            or_zero(parse_uint(trim(parts[1]), u64::MAX as nat))
        } else {
            0
        };
        let cc = if parts.len() > 2 {
            trim(parts[2])
        } else {
            Seq::<char>::empty()
        };
        Some((name, vram, cc))
    }
}

/// The device a line of `nvidia-smi` gives does not depend on the whitespace
/// around the line.
pub proof fn lemma_nvidia_line_ignores_indent(line: Seq<char>)
    ensures
        nvidia_line(line) == nvidia_line(trim(line)),
{
    crate::text::lemma_trim_idempotent(line);
}

/// What `parse_nvidia_smi` gives for a report.
pub open spec fn nvidia_report(out: Seq<char>) -> Option<Seq<DeviceView>> {
    let lower = ascii_lower(out);
    if contains(lower, "no devices"@) || contains(lower, "no supported"@) {
        None
    } else {
        let devices = somes(lines(out).map_values(|l: Seq<char>| nvidia_line(l)));
        if devices.len() == 0 {
            None
        } else {
            Some(devices)
        }
    }
}

/// The views of an optional list of devices.
pub open spec fn opt_device_views(r: Option<Vec<GpuDevice>>) -> Option<Seq<DeviceView>> {
    match r {
        Some(v) => Some(device_views(v@)),
        None => None,
    }
}

fn nvidia_line_exec(line: &Vec<char>) -> (r: Option<GpuDevice>)
    ensures
        match r {
            Some(d) => nvidia_line(line@) == Some(d@),
            None => nvidia_line(line@) is None,
        },
{
    let l = trimmed(line);
    let parts = split_char_exec(&l, ',');
    let name = trimmed(&parts[0]);
    if l.len() == 0 || name.len() == 0 {
        return None;
    }
    let vram: u64 = if parts.len() > 1 {
        match parse_uint_exec(&trimmed(&parts[1]), u64::MAX) {
            Some(v) => v,
            None => 0,
        }
    } else {
        0
    };
    let cc: Vec<char> = if parts.len() > 2 {
        trimmed(&parts[2])
    } else {
        Vec::new()
    };
    proof {
        assert(views(parts@)[0] == parts@[0]@);
        if parts.len() > 1 {
            assert(views(parts@)[1] == parts@[1]@);
        }
        if parts.len() > 2 {
            assert(views(parts@)[2] == parts@[2]@);
        }
    }
    Some(GpuDevice {
        name: string_of(name.as_slice()),
        vram_mib: vram,
        compute_capability: string_of(cc.as_slice()),
    })
}

/// Parse `nvidia-smi --query-gpu=name,memory.total,compute_cap` output. Each
/// line is `NAME, <memory MiB>, <compute cap>`. `None` when the tool reports no
/// device or no line names one.
pub fn parse_nvidia_smi(out: &str) -> (r: Option<Vec<GpuDevice>>)
    ensures
        opt_device_views(r) == nvidia_report(out@),
{
    let cs = chars_of(out);
    let lower = ascii_lower_exec(&cs);
    if contains_exec(&lower, &chars_of("no devices")) || contains_exec(&lower, &chars_of("no supported")) {
        return None;
    }
    let ls = lines_exec(&cs);
    let ghost per_line = lines(out@).map_values(|l: Seq<char>| nvidia_line(l));
    let mut devices: Vec<GpuDevice> = Vec::new();
    let mut i: usize = 0;
    while i < ls.len()
        invariant
            i <= ls.len(),
            views(ls@) == lines(out@),
            per_line == lines(out@).map_values(|l: Seq<char>| nvidia_line(l)),
            device_views(devices@) == somes(per_line.subrange(0, i as int)),
        decreases ls.len() - i,
    {
        let ghost pre = per_line.subrange(0, i + 1);
        assert(pre.drop_last() =~= per_line.subrange(0, i as int));
        assert(views(ls@)[i as int] == ls@[i as int]@);
        let ghost old = device_views(devices@);
        match nvidia_line_exec(&ls[i]) {
            Some(d) => {
                devices.push(d);
                assert(device_views(devices@) =~= old.push(d@));
            },
            None => {},
        }
        i += 1;
    }
    assert(per_line.subrange(0, i as int) =~= per_line);
    if devices.len() == 0 {
        None
    } else {
        Some(devices)
    }
}

// ── AMD (rocm-smi) ───────────────────────────────────────────────────────────

/// A `rocm-smi` line (in lower case) that gives a card's name.
pub open spec fn rocm_is_name(lower: Seq<char>) -> bool {
    contains(lower, "name of gpu card"@) || contains(lower, "product name"@)
}

/// A `rocm-smi` line (in lower case) that gives a card's VRAM.
pub open spec fn rocm_is_vram(lower: Seq<char>) -> bool {
    contains(lower, "vram total memory"@) || contains(lower, "vram memory"@) || contains(lower, "total vram"@)
}

/// The card a line speaks of: its first word when that starts with `GPU[`,
/// else one slot shared by all lines without such a word.
pub open spec fn rocm_key(line: Seq<char>) -> Seq<char> {
    match first_word(line) {
        Some(w) => if "GPU["@.is_prefix_of(w) {
            w
        } else {
            "_global"@
        },
        None => "_global"@,
    }
}

/// The value of a line: what follows its last `:`, trimmed.
pub open spec fn rocm_value(line: Seq<char>) -> Seq<char> {
    trim(split_char(line, ':').last())
}

/// The line sets its card's name (a name line with a value).
pub open spec fn rocm_sets_name(line: Seq<char>) -> bool {
    rocm_is_name(ascii_lower(line)) && rocm_value(line).len() > 0
}

/// The line sets its card's VRAM (a VRAM line that does not set a name).
pub open spec fn rocm_sets_vram(line: Seq<char>) -> bool {
    !rocm_sets_name(line) && rocm_is_vram(ascii_lower(line))
}

/// The card names that lines give, the last one for a card winning.
pub open spec fn rocm_names(ls: Seq<Seq<char>>) -> Map<Seq<char>, Seq<char>>
    decreases ls.len(),
{
    if ls.len() == 0 {
        Map::empty()
    } else {
        let m = rocm_names(ls.drop_last());
        let l = ls.last();
        if rocm_sets_name(l) {
            m.insert(rocm_key(l), rocm_value(l))
        } else {
            m
        }
    }
}

/// The VRAM amounts (MiB) that lines give, the last one for a card winning.
pub open spec fn rocm_vrams(ls: Seq<Seq<char>>) -> Map<Seq<char>, u64>
    decreases ls.len(),
{
    if ls.len() == 0 {
        Map::empty()
    } else {
        let m = rocm_vrams(ls.drop_last());
        let l = ls.last();
        if rocm_sets_vram(l) {
            m.insert(rocm_key(l), mib_value(rocm_value(l)) as u64)
        } else {
            m
        }
    }
}

/// The device reported for card `k`: its name, its VRAM or 0.
pub open spec fn rocm_device(names: Map<Seq<char>, Seq<char>>, vrams: Map<Seq<char>, u64>, k: Seq<char>) -> DeviceView {
    (
        names[k],
        if vrams.contains_key(k) {
            vrams[k]
        } else {
            0
        },
        Seq::<char>::empty(),
    )
}

/// Keys in increasing order, none twice.
pub open spec fn increasing(ks: Seq<Seq<char>>) -> bool {
    forall|i: int, j: int| 0 <= i < j < ks.len() ==> lex_le(#[trigger] ks[i], #[trigger] ks[j]) && ks[i] != ks[j]
}

/// What `parse_rocm_smi` gives for a report: no devices when no line names a
/// card; else one device per named card, in the order of the card keys.
pub open spec fn rocm_report(out: Seq<char>, r: Option<Seq<DeviceView>>) -> bool {
    let names = rocm_names(lines(out));
    let vrams = rocm_vrams(lines(out));
    match r {
        None => names.dom() == Set::<Seq<char>>::empty(),
        Some(ds) => exists|ks: Seq<Seq<char>>|
            increasing(ks) && ks.to_set() == names.dom() && ks.len() == ds.len() && forall|i: int|
                0 <= i < ks.len() ==> ds[i] == #[trigger] rocm_device(names, vrams, ks[i]),
    }
}

fn rocm_key_exec(line: &Vec<char>) -> (r: String)
    ensures
        r@ == rocm_key(line@),
{
    match first_word_exec(line) {
        Some(w) => if starts_with(&w, &chars_of("GPU[")) {
            string_of(w.as_slice())
        } else {
            String::from_str("_global")
        },
        None => String::from_str("_global"),
    }
}

fn rocm_value_exec(line: &Vec<char>) -> (r: Vec<char>)
    ensures
        r@ == rocm_value(line@),
{
    let parts = split_char_exec(line, ':');
    assert(views(parts@)[parts.len() - 1] == parts@[parts.len() - 1]@);
    trimmed(&parts[parts.len() - 1])
}

/// Best-effort parse of `rocm-smi --showproductname --showmeminfo vram`,
/// whose lines read `GPU[0]  : Name of GPU card  : AMD Radeon RX 7900 XTX` or
/// `GPU[0]  : Vram total memory  : 24576 MB`.
pub fn parse_rocm_smi(out: &str) -> (r: Option<Vec<GpuDevice>>)
    ensures
        rocm_report(out@, opt_device_views(r)),
{
    let ls = lines_exec(&chars_of(out));
    let ghost lv = lines(out@);
    let mut names: Vec<(String, String)> = Vec::new();
    let mut vrams: Vec<(String, u64)> = Vec::new();
    let mut i: usize = 0;
    while i < ls.len()
        invariant
            i <= ls.len(),
            views(ls@) == lv,
            lv == lines(out@),
            strictly_sorted(keyed_view(names@)),
            strictly_sorted(keyed_view(vrams@)),
            entries_map(keyed_view(names@)).map_values(|v: String| v@) == rocm_names(lv.take(i as int)),
            entries_map(keyed_view(vrams@)) == rocm_vrams(lv.take(i as int)),
        decreases ls.len() - i,
    {
        let line = &ls[i];
        proof {
            assert(views(ls@)[i as int] == line@);
            assert(lv.take(i + 1).drop_last() =~= lv.take(i as int));
            assert(lv.take(i + 1).last() == line@);
        }
        let lower = ascii_lower_exec(line);
        let is_name = contains_exec(&lower, &chars_of("name of gpu card")) || contains_exec(
            &lower,
            &chars_of("product name"),
        );
        let is_vram = contains_exec(&lower, &chars_of("vram total memory")) || contains_exec(
            &lower,
            &chars_of("vram memory"),
        ) || contains_exec(&lower, &chars_of("total vram"));
        if is_name || is_vram {
            let key = rocm_key_exec(line);
            let value = rocm_value_exec(line);
            if is_name && value.len() > 0 {
                let ghost before = entries_map(keyed_view(names@));
                let ghost kv = key@;
                let name = string_of(value.as_slice());
                let ghost nv = name;
                upsert_sorted(&mut names, key, name);
                assert(entries_map(keyed_view(names@)).map_values(|v: String| v@) =~= before.map_values(
                    |v: String| v@,
                ).insert(kv, nv@));
            } else if is_vram {
                let mib = parse_mib(string_of(value.as_slice()).as_str());
                upsert_sorted(&mut vrams, key, mib);
            }
        }
        i += 1;
    }
    proof {
        assert(lv.take(i as int) =~= lv);
        lemma_entry_keys(keyed_view(names@));
        assert(rocm_names(lv).dom() =~= entries_map(keyed_view(names@)).dom());
    }
    let ghost nm = rocm_names(lv);
    let ghost vm = rocm_vrams(lv);
    let ghost ks = entry_keys(keyed_view(names@));
    if names.len() == 0 {
        assert(ks =~= Seq::<Seq<char>>::empty());
        assert(nm.dom() =~= Set::<Seq<char>>::empty());
        return None;
    }
    let mut devices: Vec<GpuDevice> = Vec::new();
    let mut k: usize = 0;
    while k < names.len()
        invariant
            k <= names.len(),
            strictly_sorted(keyed_view(names@)),
            strictly_sorted(keyed_view(vrams@)),
            entries_map(keyed_view(names@)).map_values(|v: String| v@) == nm,
            entries_map(keyed_view(vrams@)) == vm,
            ks == entry_keys(keyed_view(names@)),
            devices.len() == k,
            forall|m: int| 0 <= m < k ==> (#[trigger] devices@[m])@ == rocm_device(nm, vm, ks[m]),
        decreases names.len() - k,
    {
        let vram: u64 = match lookup_sorted(&vrams, names[k].0.as_str()) {
            Some(v) => v,
            None => 0,
        };
        proof {
            assert(keyed_view(names@)[k as int] == (names@[k as int].0@, names@[k as int].1));
            crate::order::lemma_entries_map_at(keyed_view(names@), k as int);
            assert(nm[ks[k as int]] == names@[k as int].1@);
        }
        devices.push(GpuDevice { name: names[k].1.clone(), vram_mib: vram, compute_capability: String::new() });
        k += 1;
    }
    proof {
        assert(increasing(ks)) by {
            assert forall|a: int, b: int| 0 <= a < b < ks.len() implies lex_le(#[trigger] ks[a], #[trigger] ks[b])
                && ks[a] != ks[b] by {
                assert(ks[a] == keyed_view(names@)[a].0 && ks[b] == keyed_view(names@)[b].0);
            }
        }
        let dv = device_views(devices@);
        assert forall|m: int| 0 <= m < ks.len() implies dv[m] == #[trigger] rocm_device(nm, vm, ks[m]) by {
            assert(dv[m] == devices@[m]@);
        }
    }
    Some(devices)
}

// ── Apple (system_profiler) ──────────────────────────────────────────────────

/// What a `system_profiler` report has given so far: the finished devices,
/// the device being read, and the title of the current block.
pub type ProfilerView = (Seq<DeviceView>, Option<DeviceView>, Option<Seq<char>>);

/// The devices with `cur` added when it has a name.
pub open spec fn push_named(ds: Seq<DeviceView>, cur: Option<DeviceView>) -> Seq<DeviceView> {
    match cur {
        Some(d) => if d.0.len() > 0 {
            ds.push(d)
        } else {
            ds
        },
        None => ds,
    }
}

/// A block title: an indented line ending in `:` that is no `key: value`.
pub open spec fn profiler_title_line(line: Seq<char>) -> bool {
    let t = trim_end(line);
    line.len() > 0 && line[0] == ' ' && t.len() > 0 && t.last() == ':' && !contains(t, ": "@)
}

/// The title a block title line gives.
pub open spec fn profiler_title(line: Seq<char>) -> Seq<char> {
    trim(strip_trailing(trim_end(line), ':'))
}

/// How one line of the report changes what has been read.
pub open spec fn profiler_step(st: ProfilerView, line: Seq<char>) -> ProfilerView {
    let t = trim_end(line);
    if t.len() == 0 {
        st
    } else if profiler_title_line(line) {
        (st.0, st.1, Some(profiler_title(line)))
    } else {
        match find(t, ":"@) {
            None => st,
            Some(p) => {
                let key = trim(t.take(p));
                let value = trim(t.skip(p + 1));
                if key == "Chipset Model"@ {
                    let name = if value.len() > 0 {
                        value
                    } else {
                        or_empty(st.2)
                    };
                    (push_named(st.0, st.1), Some((name, 0u64, Seq::<char>::empty())), None)
                } else if key == "VRAM (Total)"@ {
                    match st.1 {
                        Some(d) => (st.0, Some((d.0, mib_value(value) as u64, d.2)), st.2),
                        None => match st.2 {
                            Some(title) => (st.0, Some((title, mib_value(value) as u64, Seq::<char>::empty())), None),
                            None => st,
                        },
                    }
                } else {
                    st
                }
            },
        }
    }
}

/// What the lines give, read in order.
pub open spec fn profiler_run(ls: Seq<Seq<char>>) -> ProfilerView
    decreases ls.len(),
{
    if ls.len() == 0 {
        (Seq::empty(), None, None)
    } else {
        profiler_step(profiler_run(ls.drop_last()), ls.last())
    }
}

/// What `parse_system_profiler` gives for a report.
pub open spec fn profiler_report(out: Seq<char>) -> Option<Seq<DeviceView>> {
    let st = profiler_run(lines(out));
    let ds = push_named(st.0, st.1);
    if ds.len() == 0 {
        None
    } else {
        Some(ds)
    }
}

struct ProfilerScan {
    devices: Vec<GpuDevice>,
    current: Option<GpuDevice>,
    title: Option<String>,
}

spec fn opt_device_view(d: Option<GpuDevice>) -> Option<DeviceView> {
    match d {
        Some(x) => Some(x@),
        None => None,
    }
}

spec fn scan_view(sc: ProfilerScan) -> ProfilerView {
    (device_views(sc.devices@), opt_device_view(sc.current), crate::models::opt_string_view(sc.title))
}

fn push_current(devices: &mut Vec<GpuDevice>, cur: Option<GpuDevice>)
    ensures
        device_views(final(devices)@) == push_named(device_views(old(devices)@), opt_device_view(cur)),
{
    match cur {
        Some(d) => {
            if d.name.as_str().unicode_len() > 0 {
                let ghost before = device_views(devices@);
                devices.push(d);
                assert(device_views(devices@) =~= before.push(d@));
            }
        },
        None => {},
    }
}

fn profiler_step_exec(sc: &mut ProfilerScan, line: &Vec<char>)
    ensures
        scan_view(*final(sc)) == profiler_step(scan_view(*old(sc)), line@),
{
    let end = crate::text::skip_ws_back(line, 0, line.len());
    assert(line@.subrange(0, line.len() as int) =~= line@);
    let t = slice_of(line, 0, end);
    if t.len() == 0 {
        return;
    }
    let colon_space = chars_of(": ");
    if line[0] == ' ' && t[t.len() - 1] == ':' && !contains_exec(&t, &colon_space) {
        let title = trimmed(&strip_trailing_exec(&t, ':'));
        sc.title = Some(string_of(title.as_slice()));
        return;
    }
    let colon = chars_of(":");
    proof {
        reveal_strlit(":");
    }
    let p = match find_exec(&t, &colon) {
        Some(p) => p,
        None => return,
    };
    proof {
        crate::text::lemma_find_some(t@, colon@);
    }
    let key = trimmed(&slice_of(&t, 0, p));
    let value = trimmed(&slice_of(&t, p + 1, t.len()));
    if crate::validate::same_chars(&key, &chars_of("Chipset Model")) {
        let cur = sc.current.take();
        push_current(&mut sc.devices, cur);
        let name: String = if value.len() > 0 {
            string_of(value.as_slice())
        } else {
            match sc.title.take() {
                Some(x) => x,
                None => String::new(),
            }
        };
        sc.title = None;
        sc.current = Some(GpuDevice { name, vram_mib: 0, compute_capability: String::new() });
    } else if crate::validate::same_chars(&key, &chars_of("VRAM (Total)")) {
        let mib = parse_mib(string_of(value.as_slice()).as_str());
        match sc.current.take() {
            Some(d) => {
                sc.current = Some(GpuDevice { name: d.name, vram_mib: mib, compute_capability: d.compute_capability });
            },
            None => {
                match sc.title.take() {
                    Some(title) => {
                        sc.current = Some(GpuDevice { name: title, vram_mib: mib, compute_capability: String::new() });
                    },
                    None => {},
                }
            },
        }
    }
}

/// Parse `system_profiler SPDisplaysDataType`. Each GPU is an indented block
/// with a title line (`    NVIDIA GeForce RTX 4090:`) and `key: value`
/// lines; the name comes from `Chipset Model` (the block title when only
/// `VRAM (Total)` is given, or when a `Chipset Model:` line without a value
/// is not indented; an indented line ending in `:` with no value is itself
/// read as a block title), the VRAM from `VRAM (Total)` (0 without one, as
/// on Apple Silicon).
pub fn parse_system_profiler(out: &str) -> (r: Option<Vec<GpuDevice>>)
    ensures
        opt_device_views(r) == profiler_report(out@),
{
    let ls = lines_exec(&chars_of(out));
    let ghost lv = lines(out@);
    let mut sc = ProfilerScan { devices: Vec::new(), current: None, title: None };
    assert(device_views(sc.devices@) =~= Seq::<DeviceView>::empty());
    let mut i: usize = 0;
    while i < ls.len()
        invariant
            i <= ls.len(),
            views(ls@) == lv,
            lv == lines(out@),
            scan_view(sc) == profiler_run(lv.take(i as int)),
        decreases ls.len() - i,
    {
        proof {
            assert(views(ls@)[i as int] == ls@[i as int]@);
            assert(lv.take(i + 1).drop_last() =~= lv.take(i as int));
            assert(lv.take(i + 1).last() == ls@[i as int]@);
        }
        profiler_step_exec(&mut sc, &ls[i]);
        i += 1;
    }
    proof {
        assert(lv.take(i as int) =~= lv);
    }
    let mut devices = sc.devices;
    push_current(&mut devices, sc.current);
    if devices.len() == 0 {
        None
    } else {
        Some(devices)
    }
}

} // verus!
