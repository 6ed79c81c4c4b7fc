use heart_cli::sysinfo::{
    cpu_model_name, cpu_name_cuts_cleanly, kernel_release, memory_text, memory_totals,
    os_pretty_name, shell_name, shorten_cpu_name, sources_are_displayable, system_info,
    uptime_text, SystemSources,
};

fn chars(s: &str) -> Vec<char> {
    s.chars().collect()
}

fn string(v: &[char]) -> String {
    v.iter().collect()
}

/// The same computations written with `str` methods, to compare against.
fn by_str_os(text: &str) -> Option<String> {
    for line in text.lines() {
        if line.starts_with("PRETTY_NAME=") {
            return Some(line.trim_start_matches("PRETTY_NAME=").trim_matches('"').to_string());
        }
    }
    None
}

fn by_str_cpu(text: &str) -> Option<String> {
    for line in text.lines() {
        if line.starts_with("model name") {
            if let Some(name) = line.split(':').nth(1) {
                let name = name.trim().replace("(R)", "").replace("(TM)", "").replace("CPU ", "");
                let name = if name.len() > 35 { format!("{}...", &name[..32]) } else { name };
                return Some(name);
            }
        }
    }
    None
}

fn by_str_memory(text: &str) -> Option<String> {
    let mut total: u64 = 0;
    let mut available: u64 = 0;
    for line in text.lines() {
        if line.starts_with("MemTotal:") {
            if let Some(val) = line.split_whitespace().nth(1) {
                total = val.parse().unwrap_or(0);
            }
        } else if line.starts_with("MemAvailable:") {
            if let Some(val) = line.split_whitespace().nth(1) {
                available = val.parse().unwrap_or(0);
            }
        }
    }
    if total > 0 {
        Some(format!("{} MiB / {} MiB", (total - available) / 1024, total / 1024))
    } else {
        None
    }
}

fn cpu(text: &str) -> Option<String> {
    cpu_model_name(&chars(text)).map(|n| string(&shorten_cpu_name(&n)))
}

fn memory(text: &str) -> Option<String> {
    let (t, a) = memory_totals(&chars(text));
    memory_text(t, a).map(|v| string(&v))
}

const OS_RELEASE: &str = "NAME=\"Arch Linux\"\nPRETTY_NAME=\"Arch Linux\"\nID=arch\n";

const CPUINFO: &str = "processor\t: 0\nvendor_id\t: GenuineIntel\nmodel name\t: Intel(R) Core(TM) i7-8550U CPU @ 1.80GHz\nmodel name\t: second\n";

const MEMINFO: &str = "MemTotal:       16310036 kB\nMemFree:         1234567 kB\nMemAvailable:    8155018 kB\n";

#[test]
fn os_name_from_os_release() {
    assert_eq!(os_pretty_name(&chars(OS_RELEASE)).map(|v| string(&v)), Some("Arch Linux".to_string()));
    for text in [OS_RELEASE, "", "NAME=x\n", "PRETTY_NAME=\n", "PRETTY_NAME=\"\"x\"\"", "PRETTY_NAME=PRETTY_NAME=\"y\"\r\n", "  PRETTY_NAME=z"] {
        assert_eq!(os_pretty_name(&chars(text)).map(|v| string(&v)), by_str_os(text), "{:?}", text);
    }
}

#[test]
fn cpu_name_cleaned_and_shortened() {
    assert_eq!(cpu(CPUINFO), Some("Intel Core i7-8550U @ 1.80GHz".to_string()));
    let long = "model name : AMD Ryzen Threadripper PRO 5995WX 64-Cores Processor\n";
    assert_eq!(cpu(long), Some("AMD Ryzen Threadripper PRO 5995W...".to_string()));
    for text in [CPUINFO, long, "", "model name without colon\nmodel name: next one\n", "model name:\n", "cpu MHz : 1\n", "model name : exactly thirty-five bytes long abcdefg\n"] {
        assert_eq!(cpu(text), by_str_cpu(text), "{:?}", text);
    }
}

#[test]
fn cpu_name_cut_inside_a_character_is_refused() {
    // 31 ASCII bytes and then a two-byte character: byte 32 is inside it.
    let name = chars("abcdefghijklmnopqrstuvwxyz01234é and more text");
    assert!(!cpu_name_cuts_cleanly(&name));
    let fine = chars("abcdefghijklmnopqrstuvwxyz012345é and more text");
    assert!(cpu_name_cuts_cleanly(&fine));
    assert_eq!(string(&shorten_cpu_name(&fine)), "abcdefghijklmnopqrstuvwxyz012345...");
    assert!(cpu_name_cuts_cleanly(&chars("short")));
}

#[test]
fn memory_used_and_total_in_mib() {
    assert_eq!(memory(MEMINFO), Some("7963 MiB / 15927 MiB".to_string()));
    for text in [MEMINFO, "", "MemTotal: x kB\n", "MemTotal:\nMemAvailable: 5\n", "MemTotal: 2048\nMemTotal: 4096\n", "MemAvailable: 3\n"] {
        assert_eq!(memory(text), by_str_memory(text), "{:?}", text);
    }
    assert_eq!(memory_totals(&chars("MemTotal: 10\nMemTotal:\n")), (10, 0));
    assert_eq!(memory_text(0, 5), None);
}

#[test]
fn uptime_kernel_and_shell() {
    assert_eq!(string(&uptime_text(3, 7)), "3 hours, 7 mins");
    assert_eq!(string(&uptime_text(0, 0)), "0 hours, 0 mins");
    assert_eq!(string(&kernel_release(&chars("6.9.1-arch1-1\n"))), "6.9.1-arch1-1");
    assert_eq!(string(&shell_name(&chars("/usr/bin/fish"))), "fish");
    assert_eq!(string(&shell_name(&chars("bash"))), "bash");
}

fn sources() -> SystemSources {
    SystemSources {
        user: Some(chars("jöe")),
        hostname: Some(chars("box\n")),
        os_release: Some(chars(OS_RELEASE)),
        kernel: Some(chars("6.9.1\n")),
        uptime: Some((5, 42)),
        shell: Some(chars("/bin/zsh")),
        term: Some(chars("xterm-256color")),
        cpuinfo: Some(chars(CPUINFO)),
        meminfo: Some(chars(MEMINFO)),
    }
}

fn pairs(v: Vec<(Vec<char>, Vec<char>)>) -> Vec<(String, String)> {
    v.into_iter().map(|(l, r)| (string(&l), string(&r))).collect()
}

#[test]
fn system_info_lists_every_source_in_order() {
    let src = sources();
    assert!(sources_are_displayable(&src));
    let info = pairs(system_info(&src));
    let expected: Vec<(String, String)> = vec![
        ("", "jöe@box"),
        ("", "--------"),
        ("OS", "Arch Linux"),
        ("Kernel", "6.9.1"),
        ("Uptime", "5 hours, 42 mins"),
        ("Shell", "zsh"),
        ("Terminal", "xterm-256color"),
        ("CPU", "Intel Core i7-8550U @ 1.80GHz"),
        ("Memory", "7963 MiB / 15927 MiB"),
    ]
    .into_iter()
    .map(|(a, b)| (a.to_string(), b.to_string()))
    .collect();
    assert_eq!(info, expected);
    // The rule has one dash per byte of the first line.
    assert_eq!(info[1].1.len(), info[0].1.len());
}

#[test]
fn system_info_defaults_and_missing_sources() {
    let src = SystemSources {
        user: None,
        hostname: None,
        os_release: Some(chars("ID=x\n")),
        kernel: None,
        uptime: None,
        shell: None,
        term: None,
        cpuinfo: Some(chars("flags: x\n")),
        meminfo: Some(chars("MemFree: 3\n")),
    };
    assert!(sources_are_displayable(&src));
    let info = pairs(system_info(&src));
    assert_eq!(
        info,
        vec![("".to_string(), "user@localhost".to_string()), ("".to_string(), "-".repeat(14))]
    );
}

#[test]
fn undisplayable_sources_are_detected() {
    let mut src = sources();
    src.meminfo = Some(chars("MemTotal: 10\nMemAvailable: 20\n"));
    assert!(!sources_are_displayable(&src));
    let mut src = sources();
    src.cpuinfo = Some(chars("model name : abcdefghijklmnopqrstuvwxyz01234é and more text\n"));
    assert!(!sources_are_displayable(&src));
}
