//! What `llama-server --version` prints: version, compiler and GPU devices.

use vstd::prelude::*;
use crate::gpu::{DeviceView, GpuDevice, device_views, or_zero, somes};
use crate::text::{
    chars_of, contains, contains_exec, digits_end, find, find_exec, is_ws, is_ws_exec,
    lemma_find_some, lines, lines_exec, matches_at, parse_uint, parse_uint_exec, skip_ws,
    slice_of, split_char, split_char_exec, string_of, take_digits, trim, trim_start, trimmed,
    views,
};

verus! {

/// The fields read from `llama-server --version`.
#[derive(Debug, Clone)]
pub struct LlamaServerInfo {
    pub version: String,
    pub compiler: String,
    pub gpu_devices: Vec<GpuDevice>,
    pub raw_output: String,
}

/// The value of the leading decimal digits of `s` (leading whitespace
/// skipped), or 0 when there are none or they do not fit in a `u64`.
pub open spec fn leading_u64(s: Seq<char>) -> u64 {
    or_zero(parse_uint(take_digits(trim_start(s)), u64::MAX as nat))
}

/// The characters of `s` up to the first whitespace, `,` or `)`.
pub open spec fn take_cc(s: Seq<char>) -> Seq<char>
    decreases s.len(),
{
    if s.len() == 0 || is_ws(s[0]) || s[0] == ',' || s[0] == ')' {
        Seq::<char>::empty()
    } else {
        seq![s[0]] + take_cc(s.drop_first())
    }
}

/// `compute capability X.Y` in a line, if present.
pub open spec fn capability_of(t: Seq<char>) -> Seq<char> {
    match find(t, "compute capability "@) {
        Some(i) => take_cc(t.skip(i + "compute capability "@.len())),
        None => Seq::<char>::empty(),
    }
}

/// VRAM in MiB when the line itself carries `VRAM: N`.
pub open spec fn vram_in_line(t: Seq<char>) -> Option<u64> {
    match find(t, "VRAM:"@) {
        Some(i) => Some(leading_u64(t.skip(i + "VRAM:"@.len()))),
        None => None,
    }
}

/// The positive `Total VRAM: N` of one line, if any.
pub open spec fn total_vram_in(l: Seq<char>) -> Option<u64> {
    match find(l, "Total VRAM: "@) {
        Some(i) => {
            let v = leading_u64(l.skip(i + "Total VRAM: "@.len()));
            if v > 0 {
                Some(v)
            } else {
                None
            }
        },
        None => None,
    }
}

/// The first positive `Total VRAM: N` over all lines.
pub open spec fn total_vram(ls: Seq<Seq<char>>) -> Option<u64>
    decreases ls.len(),
{
    if ls.len() == 0 {
        None
    } else {
        match total_vram_in(ls[0]) {
            Some(v) => Some(v),
            None => total_vram(ls.drop_first()),
        }
    }
}

/// The text after the first `:` of `rest`, or `rest` when there is none.
pub open spec fn after_colon(rest: Seq<char>) -> Seq<char> {
    match find(rest, ":"@) {
        Some(i) => rest.skip(i + ":"@.len()),
        None => rest,
    }
}

/// The device (name, compute capability) that a trimmed line names, in
/// CUDA's `Device N: NAME, ...` form or Metal/Vulkan's `found device: NAME`.
pub open spec fn device_line(t: Seq<char>) -> Option<(Seq<char>, Seq<char>)> {
    if "Device "@.is_prefix_of(t) {
        let name = trim(split_char(after_colon(t.skip("Device "@.len() as int)), ',')[0]);
        if name.len() == 0 {
            None
        } else {
            Some((name, capability_of(t)))
        }
    } else {
        match find(t, "found device:"@) {
            Some(i) => {
                let name = trim(t.skip(i + "found device:"@.len()));
                if name.len() == 0 {
                    None
                } else {
                    Some((name, capability_of(t)))
                }
            },
            None => None,
        }
    }
}

/// The device that one line of the report gives, its VRAM from the line
/// itself, else from the first `Total VRAM` of the report, else 0.
pub open spec fn device_of_line(line: Seq<char>, ls: Seq<Seq<char>>) -> Option<DeviceView> {
    let t = trim(line);
    match device_line(t) {
        Some((name, cc)) => {
            let vram = match vram_in_line(t) {
                Some(v) => v,
                None => match total_vram(ls) {
                    Some(v) => v,
                    None => 0,
                },
            };
            Some((name, vram, cc))
        },
        None => None,
    }
}

/// The device a line gives does not depend on the whitespace around the
/// line: llama.cpp indents its `Device N:` lines, and an indented line (or
/// one with trailing spaces) gives the same device as the bare line.
pub proof fn lemma_device_ignores_indent(line: Seq<char>, ls: Seq<Seq<char>>)
    ensures
        device_of_line(line, ls) == device_of_line(trim(line), ls),
{
    crate::text::lemma_trim_idempotent(line);
}

/// The version: the rest of the last line starting `version:`.
pub open spec fn version_of(ls: Seq<Seq<char>>) -> Seq<char>
    decreases ls.len(),
{
    if ls.len() == 0 {
        Seq::<char>::empty()
    } else if "version:"@.is_prefix_of(trim(ls.last())) {
        trim(trim(ls.last()).skip("version:"@.len() as int))
    } else {
        version_of(ls.drop_last())
    }
}

/// The compiler: the last line starting `built with` (and not `version:`).
pub open spec fn compiler_of(ls: Seq<Seq<char>>) -> Seq<char>
    decreases ls.len(),
{
    if ls.len() == 0 {
        Seq::<char>::empty()
    } else if !"version:"@.is_prefix_of(trim(ls.last())) && "built with"@.is_prefix_of(
        trim(ls.last()),
    ) {
        trim(ls.last())
    } else {
        compiler_of(ls.drop_last())
    }
}

/// The version and compiler read from a report do not depend on the
/// whitespace around its lines: trimming every line leaves both unchanged.
pub proof fn lemma_report_ignores_indent(ls: Seq<Seq<char>>)
    ensures
        version_of(ls) == version_of(ls.map_values(|l: Seq<char>| trim(l))),
        compiler_of(ls) == compiler_of(ls.map_values(|l: Seq<char>| trim(l))),
    decreases ls.len(),
{
    let tl = ls.map_values(|l: Seq<char>| trim(l));
    if ls.len() > 0 {
        assert(tl.drop_last() =~= ls.drop_last().map_values(|l: Seq<char>| trim(l)));
        lemma_report_ignores_indent(ls.drop_last());
        assert(tl.last() == trim(ls.last()));
        crate::text::lemma_trim_idempotent(ls.last());
    }
}

/// The devices of the report: one per device line, or, when there is none, a
/// generic one carrying the first positive `Total VRAM`.
pub open spec fn devices_of(combined: Seq<char>) -> Seq<DeviceView> {
    let ls = lines(combined);
    let found = somes(ls.map_values(|l: Seq<char>| device_of_line(l, ls)));
    if found.len() > 0 {
        found
    } else {
        match total_vram(ls) {
            Some(v) => seq![
                (if contains(combined, "CUDA"@) {
                    "CUDA GPU"@
                } else {
                    "GPU"@
                }, v, Seq::<char>::empty()),
            ],
            None => Seq::<DeviceView>::empty(),
        }
    }
}

fn parse_leading_u64(s: &Vec<char>, a: usize) -> (v: u64)
    requires
        a <= s.len(),
    ensures
        v == leading_u64(s@.skip(a as int)),
{
    let b = skip_ws(s, a, s.len());
    let e = digits_end(s, b);
    assert(s@.subrange(a as int, s.len() as int) =~= s@.skip(a as int));
    assert(s@.subrange(b as int, s.len() as int) =~= s@.skip(b as int));
    let d = slice_of(s, b, e);
    match parse_uint_exec(&d, u64::MAX) {
        Some(v) => v,
        None => 0,
    }
}

fn take_cc_end(s: &Vec<char>, a: usize) -> (j: usize)
    requires
        a <= s.len(),
    ensures
        a <= j <= s.len(),
        take_cc(s@.subrange(a as int, s.len() as int)) == s@.subrange(a as int, j as int),
{
    let mut j = a;
    while j < s.len() && !is_ws_exec(s[j]) && s[j] != ',' && s[j] != ')'
        invariant
            a <= j <= s.len(),
            take_cc(s@.subrange(a as int, s.len() as int)) == s@.subrange(a as int, j as int)
                + take_cc(s@.subrange(j as int, s.len() as int)),
        decreases s.len() - j,
    {
        let ghost rest = s@.subrange(j as int, s.len() as int);
        assert(rest.drop_first() =~= s@.subrange(j + 1, s.len() as int));
        assert(take_cc(rest) == seq![rest[0]] + take_cc(rest.drop_first()));
        assert(s@.subrange(a as int, j as int) + (seq![s@[j as int]] + take_cc(rest.drop_first()))
            =~= s@.subrange(a as int, j + 1) + take_cc(rest.drop_first()));
        j += 1;
    }
    assert(take_cc(s@.subrange(j as int, s.len() as int)) =~= Seq::<char>::empty());
    assert(s@.subrange(a as int, j as int) + Seq::<char>::empty() =~= s@.subrange(a as int, j as int));
    j
}

fn compute_capability(t: &Vec<char>) -> (r: Vec<char>)
    ensures
        r@ == capability_of(t@),
{
    let pat = chars_of("compute capability ");
    match find_exec(t, &pat) {
        Some(i) => {
            proof {
                lemma_find_some(t@, pat@);
            }
            assert(i + pat@.len() <= t@.len());
            assert(pat.len() == pat@.len());
            assert(i + pat.len() <= t.len());
            let a = i + pat.len();
            let j = take_cc_end(t, a);
            assert(t@.subrange(a as int, t.len() as int) =~= t@.skip(a as int));
            slice_of(t, a, j)
        },
        None => Vec::new(),
    }
}

fn vram_mib_from_line(t: &Vec<char>) -> (r: Option<u64>)
    ensures
        r == vram_in_line(t@),
{
    let pat = chars_of("VRAM:");
    match find_exec(t, &pat) {
        Some(i) => {
            proof {
                lemma_find_some(t@, pat@);
            }
            assert(i + pat@.len() <= t@.len());
            assert(pat.len() == pat@.len());
            assert(i + pat.len() <= t.len());
            Some(parse_leading_u64(t, i + pat.len()))
        },
        None => None,
    }
}

fn total_vram_in_exec(l: &Vec<char>) -> (r: Option<u64>)
    ensures
        r == total_vram_in(l@),
{
    let pat = chars_of("Total VRAM: ");
    match find_exec(l, &pat) {
        Some(i) => {
            proof {
                lemma_find_some(l@, pat@);
            }
            assert(i + pat@.len() <= l@.len());
            assert(pat.len() == pat@.len());
            assert(i + pat.len() <= l.len());
            let v = parse_leading_u64(l, i + pat.len());
            if v > 0 {
                Some(v)
            } else {
                None
            }
        },
        None => None,
    }
}

fn total_vram_mib(ls: &Vec<Vec<char>>) -> (r: Option<u64>)
    ensures
        r == total_vram(views(ls@)),
{
    let ghost all = views(ls@);
    assert(all.skip(0) =~= all);
    let mut i: usize = 0;
    while i < ls.len()
        invariant
            i <= ls.len(),
            all == views(ls@),
            total_vram(all) == total_vram(all.skip(i as int)),
        decreases ls.len() - i,
    {
        let ghost rest = all.skip(i as int);
        assert(rest[0] == ls@[i as int]@);
        assert(rest.drop_first() =~= all.skip(i + 1));
        match total_vram_in_exec(&ls[i]) {
            Some(v) => {
                return Some(v);
            },
            None => {},
        }
        i += 1;
    }
    None
}

fn parse_device_line(t: &Vec<char>) -> (r: Option<(Vec<char>, Vec<char>)>)
    ensures
        match r {
            Some((n, c)) => device_line(t@) == Some((n@, c@)),
            None => device_line(t@) is None,
        },
{
    let dev = chars_of("Device ");
    if crate::text::starts_with(t, &dev) {
        let rest = slice_of(t, dev.len(), t.len());
        assert(rest@ =~= t@.skip(dev@.len() as int));
        let colon = chars_of(":");
        let after = match find_exec(&rest, &colon) {
            Some(i) => {
                proof {
                    lemma_find_some(rest@, colon@);
                }
                assert(i + colon@.len() <= rest@.len());
                let a = slice_of(&rest, i + colon.len(), rest.len());
                assert(a@ =~= rest@.skip(i + colon@.len()));
                a
            },
            None => rest,
        };
        assert(after@ == after_colon(t@.skip(dev@.len() as int)));
        let parts = split_char_exec(&after, ',');
        assert(views(parts@)[0] == parts@[0]@);
        let name = trimmed(&parts[0]);
        if name.len() == 0 {
            return None;
        }
        return Some((name, compute_capability(t)));
    }
    let fd = chars_of("found device:");
    match find_exec(t, &fd) {
        Some(i) => {
            proof {
                lemma_find_some(t@, fd@);
            }
            assert(i + fd@.len() <= t@.len());
            assert(fd.len() == fd@.len());
            assert(i + fd.len() <= t.len());
            let rest = slice_of(t, i + fd.len(), t.len());
            assert(rest@ =~= t@.skip(i + fd@.len()));
            let name = trimmed(&rest);
            if name.len() == 0 {
                return None;
            }
            Some((name, compute_capability(t)))
        },
        None => None,
    }
}

fn version_line(t: &Vec<char>, pat: &Vec<char>) -> (r: Vec<char>)
    requires
        pat@.is_prefix_of(t@),
    ensures
        r@ == trim(t@.skip(pat@.len() as int)),
{
    let rest = slice_of(t, pat.len(), t.len());
    assert(rest@ =~= t@.skip(pat@.len() as int));
    trimmed(&rest)
}

/// Read version, compiler and devices from the combined output of
/// `llama-server --version`.
pub fn parse_llama_server_info(combined: String) -> (info: LlamaServerInfo)
    ensures
        info.version@ == version_of(lines(combined@)),
        info.compiler@ == compiler_of(lines(combined@)),
        device_views(info.gpu_devices@) == devices_of(combined@),
        info.raw_output@ == combined@,
{
    let cs = chars_of(combined.as_str());
    let ls = lines_exec(&cs);
    let ghost all = lines(combined@);
    let vpat = chars_of("version:");
    let bpat = chars_of("built with");
    let mut version: Vec<char> = Vec::new();
    let mut compiler: Vec<char> = Vec::new();
    let mut i: usize = 0;
    while i < ls.len()
        invariant
            i <= ls.len(),
            all == views(ls@),
            vpat@ == "version:"@,
            bpat@ == "built with"@,
            version@ == version_of(all.subrange(0, i as int)),
            compiler@ == compiler_of(all.subrange(0, i as int)),
        decreases ls.len() - i,
    {
        let ghost pre = all.subrange(0, i + 1);
        assert(pre.drop_last() =~= all.subrange(0, i as int));
        assert(pre.last() == ls@[i as int]@);
        let t = trimmed(&ls[i]);
        if crate::text::starts_with(&t, &vpat) {
            version = version_line(&t, &vpat);
        } else if crate::text::starts_with(&t, &bpat) {
            compiler = t;
        }
        i += 1;
    }
    assert(all.subrange(0, i as int) =~= all);
    let total = total_vram_mib(&ls);
    let ghost per_line = all.map_values(|l: Seq<char>| device_of_line(l, all));
    let mut devices: Vec<GpuDevice> = Vec::new();
    let mut k: usize = 0;
    while k < ls.len()
        invariant
            k <= ls.len(),
            all == views(ls@),
            total == total_vram(all),
            per_line == all.map_values(|l: Seq<char>| device_of_line(l, all)),
            device_views(devices@) == somes(per_line.subrange(0, k as int)),
        decreases ls.len() - k,
    {
        let ghost pre = per_line.subrange(0, k + 1);
        assert(pre.drop_last() =~= per_line.subrange(0, k as int));
        assert(all[k as int] == ls@[k as int]@);
        let t = trimmed(&ls[k]);
        let ghost old = device_views(devices@);
        match parse_device_line(&t) {
            Some((name, cc)) => {
                let vram: u64 = match vram_mib_from_line(&t) {
                    Some(v) => v,
                    None => match total {
                        Some(v) => v,
                        None => 0,
                    },
                };
                let d = GpuDevice {
                    name: string_of(name.as_slice()),
                    vram_mib: vram,
                    compute_capability: string_of(cc.as_slice()),
                };
                devices.push(d);
                assert(device_views(devices@) =~= old.push((name@, vram, cc@)));
            },
            None => {},
        }
        k += 1;
    }
    assert(per_line.subrange(0, k as int) =~= per_line);
    if devices.len() == 0 {
        match total {
            Some(v) => {
                let hint = if contains_exec(&cs, &chars_of("CUDA")) {
                    "CUDA GPU"
                } else {
                    "GPU"
                };
                devices.push(
                    GpuDevice {
                        name: String::from_str(hint),
                        vram_mib: v,
                        compute_capability: String::new(),
                    },
                );
                assert(device_views(devices@) =~= devices_of(combined@));
            },
            None => {},
        }
    }
    LlamaServerInfo {
        version: string_of(version.as_slice()),
        compiler: string_of(compiler.as_slice()),
        gpu_devices: devices,
        raw_output: combined,
    }
}

/// The devices to report: those the vendor's tool found, when it found any,
/// else those read from `llama-server --version`.
pub fn prefer_tool_devices(parsed: Vec<GpuDevice>, tool: Vec<GpuDevice>) -> (r: Vec<GpuDevice>)
    ensures
        tool.len() > 0 ==> r@ == tool@,
        tool.len() == 0 ==> r@ == parsed@,
{
    if tool.len() > 0 {
        tool
    } else {
        parsed
    }
}

} // verus!
