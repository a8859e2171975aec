//! The library's text handling compared with the same steps written with
//! `std` and the `regex` crate, on many inputs.
use tea_partition_generator::disk_helper::{format_size_human, remove_end_s, try_disk_split_no_dev};
use tea_partition_generator::os::Os;
use tea_partition_generator::parted_parser::PartedResult;

fn grub_with_std(content: &str, val_nostr: bool) -> String {
    let key = "GRUB_DISABLE_OS_PROBER";
    let val = format!("{}", val_nostr);
    let mut lines: Vec<String> = content.lines().map(|l| l.to_string()).collect();
    let mut found = false;
    for line in lines.iter_mut() {
        if line.trim_start().starts_with(&format!("{key}=")) || line.trim_start().starts_with(&format!("#{key}=")) {
            *line = format!("{key}={val}");
            found = true;
            break;
        }
    }
    if !found {
        lines.push(format!("{key}={val}"));
    }
    lines.join("\n") + "\n"
}

#[test]
fn grub_patch_matches_std_lines() {
    let pieces = ["", "\n", "\r", "\r\n", "A=1", "  GRUB_DISABLE_OS_PROBER=x", "#GRUB_DISABLE_OS_PROBER=y",
        "\u{3000}GRUB_DISABLE_OS_PROBER=z", "\u{85}#GRUB_DISABLE_OS_PROBER=", "x\r\r", "GRUB_DISABLE_OS_PROBER", "é"];
    let mut inputs: Vec<String> = Vec::new();
    for a in pieces.iter() {
        for b in pieces.iter() {
            for c in pieces.iter() {
                inputs.push(format!("{a}{b}{c}"));
                inputs.push(format!("{a}\n{b}\n{c}"));
            }
        }
    }
    for s in inputs.iter() {
        for v in [true, false] {
            assert_eq!(Os::patch_grub_config_text(s, v), grub_with_std(s, v), "input {:?}", s);
        }
    }
}

fn prober_with_regex(text: &str) -> Vec<(String, String)> {
    let re = regex::Regex::new(r"^(\/dev\/[^\s:@]+)(?:@[^:]+)?:([^:]+):").unwrap();
    let mut out = Vec::new();
    for entry in text.split('\n') {
        if let Some(c) = re.captures(entry) {
            out.push((c.get(1).unwrap().as_str().to_string(), c.get(2).unwrap().as_str().to_string()));
        }
    }
    out
}

#[test]
fn os_prober_lines_match_regex() {
    let pieces = ["/dev/", "sda1", "@", "/efi/x", ":", "Win", " ", "\t", "\u{a0}", "é", "@x", "::", "nvme0n1p2", "\u{2009}"];
    let mut text = String::new();
    for a in pieces.iter() {
        for b in pieces.iter() {
            for c in pieces.iter() {
                for d in pieces.iter() {
                    text.push_str(&format!("/dev/{a}{b}{c}{d}:N:\n{a}{b}{c}{d}\n"));
                }
            }
        }
    }
    let got: Vec<(String, String)> = Os::get_other_os(&text)
        .unwrap_or_default()
        .iter()
        .map(|o| (o.path.clone(), o.name.clone()))
        .collect();
    assert_eq!(got, prober_with_regex(&text));
}

fn parted_with_std(raw: &str) -> Option<(Vec<String>, Vec<Vec<String>>)> {
    // the disk fields and every partition's fields, numbers read the same way
    let mut recs: Vec<&str> = Vec::new();
    for p in raw.split(';') {
        let t = p.trim_start_matches('\n');
        if t.is_empty() {
            continue;
        }
        recs.push(t);
    }
    let num = |f: &str, cut: bool| -> Option<String> {
        let mut t = f.to_string();
        if cut {
            t.pop();
        }
        t.parse::<u64>().ok().map(|n| n.to_string())
    };
    let mut disk = Vec::new();
    if recs.len() > 1 {
        let f: Vec<&str> = recs[1].split(':').collect();
        for (k, x) in f.iter().enumerate().take(8) {
            disk.push(match k {
                1 => num(x, true)?,
                3 | 4 => { let v = x.parse::<u32>().ok()?; v.to_string() }
                _ => x.to_string(),
            });
        }
    }
    let mut parts = Vec::new();
    for r in recs.iter().skip(2) {
        let f: Vec<&str> = r.split(':').collect();
        let mut v = Vec::new();
        for (k, x) in f.iter().enumerate().take(7) {
            v.push(match k {
                0 => { let n = x.parse::<u32>().ok()?; n.to_string() }
                1 | 2 | 3 => num(x, true)?,
                _ => x.to_string(),
            });
        }
        parts.push(v);
    }
    Some((disk, parts))
}

fn parted_fields(r: &PartedResult, disk_fields: usize, part_fields: &[usize]) -> (Vec<String>, Vec<Vec<String>>) {
    let i = &r.info;
    let disk: Vec<String> = vec![
        i.disk.clone(), i.sector.to_string(), i.disk_type.clone(), i.sector_size_logical.to_string(),
        i.sector_size_physical.to_string(), i.partition_table.clone(), i.model.clone(), i.disk_flags.clone(),
    ]
    .into_iter()
    .take(disk_fields)
    .collect();
    let parts = r
        .data
        .iter()
        .zip(part_fields.iter())
        .map(|(d, n)| {
            vec![d.number.to_string(), d.start.to_string(), d.end.to_string(), d.size.to_string(),
                d.fs.clone(), d.partition_name.clone(), d.flags.clone()]
            .into_iter()
            .take(*n)
            .collect()
        })
        .collect();
    (disk, parts)
}

#[test]
fn parted_records_match_std_split_and_parse() {
    let recs = ["BYT", "/dev/sdb:50331648s:scsi:512:512:gpt:ATA QEMU HARDDISK:", "1:34s:2047s:2014s:free",
        "2:2048s:4095s:2048s:ext4:a:boot, esp", "3:+9s:10s", "x:1s:2s:3s", "4:1:2:3:fat32", "5:18446744073709551615s:0s:1s",
        "6:18446744073709551616s:0s:1s", "", "\n\n", "7", "/dev/sda:1s:t:4294967295:4294967296:msdos"];
    for a in recs.iter() {
        for b in recs.iter() {
            for c in recs.iter() {
                for sep in [";", ";\n", ";\n\n"] {
                    let raw = format!("{a}{sep}{b}{sep}{c}{sep}");
                    let model = parted_with_std(&raw);
                    let got = PartedResult::try_parse(&raw);
                    assert_eq!(got.is_some(), model.is_some(), "input {:?}", raw);
                    if let (Some(g), Some((disk, parts))) = (got, model) {
                        let lens: Vec<usize> = parts.iter().map(|p| p.len()).collect();
                        let (gd, gp) = parted_fields(&g, disk.len(), &lens);
                        assert_eq!(gd, disk, "input {:?}", raw);
                        assert_eq!(gp, parts, "input {:?}", raw);
                        assert_eq!(g.data.len(), parts.len());
                    }
                }
            }
        }
    }
}

#[test]
fn file_names_match_std_path() {
    let paths = ["/dev/sdb", "/dev/sdb/", "/dev/sdb/.", "/dev/..", "/", "", "sdb", "a//b", "/dev/nvme0n1", ".", "..", "./x", "é/ü"];
    for p in paths.iter() {
        let std_name = std::path::Path::new(p).file_name().and_then(|s| s.to_str()).map(|s| s.to_string());
        assert_eq!(try_disk_split_no_dev(p.to_string()), std_name, "path {:?}", p);
    }
}

#[test]
fn sizes_match_format() {
    for size in [0u64, 1, 1048575, 1048576, 1073741823, 1073741824, 5368709120, 998 * 1073741824 + 1073741823,
        999 * 1073741824, u64::MAX, 35000320 * 512] {
        let expected = if size < 1024 * 1024 {
            "1M".to_string()
        } else if size < 999 * 1024 * 1024 * 1024 {
            format!("{}G", size / 1024 / 1024 / 1024)
        } else {
            format!("{}T", size / 1024 / 1024 / 1024)
        };
        assert_eq!(format_size_human(size), expected);
    }
}

#[test]
fn sector_suffix_matches_std() {
    for s in ["2048s", "s", "", "ss", "12é", "és"] {
        let expected = if s.ends_with('s') { s[..s.len() - 1].to_string() } else { s.to_string() };
        assert_eq!(remove_end_s(s.to_string()), expected);
    }
}
