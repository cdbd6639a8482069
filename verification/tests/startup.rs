use kirblasnoop::catalogue::{entry_line, is_profile, sort, Entry};
use kirblasnoop::config::{parse_spec, Listener, Proto};
use kirblasnoop::log::ConsoleMode;
use kirblasnoop::sockopt::{bad_name, device_name};
use kirblasnoop::startup::{
    all_failed, candidates, options, pick, plan, profiles, unforwarded, Candidate, Defaults,
    Recording,
};
use kirblasnoop::transparent::transparent;

fn defaults() -> Defaults {
    Defaults { profile: None, iface: None, upstream: None }
}

fn listeners(specs: &[&str]) -> Vec<Listener> {
    specs.iter().map(|s| parse_spec(s).unwrap()).collect()
}

#[test]
fn profile_dirs_are_tried_in_order() {
    let all: Vec<&str> = candidates(true, true).iter().map(|c| c.tail()).collect();
    assert_eq!(
        all,
        vec![
            "profiles",
            "kirblasnoop/profiles",
            ".local/share/kirblasnoop/profiles",
            "/usr/local/share/kirblasnoop/profiles",
            "/usr/share/kirblasnoop/profiles",
        ]
    );
    assert_eq!(
        candidates(false, false),
        vec![Candidate::Local, Candidate::UsrLocal, Candidate::Usr]
    );
    assert_eq!(pick(&vec![false, true, true]), 1);
    assert_eq!(pick(&vec![false, false]), 0);
}

#[test]
fn listeners_get_names_and_defaults() {
    let mut l = listeners(&["tcp:80=http", "udp:53"]);
    l[1].name = Some("mine".into());
    l[1].upstream = Some("h:1".into());
    let d = Defaults {
        profile: Some("echo".into()),
        iface: Some("eth0".into()),
        upstream: None,
    };
    let p = plan(&l, &d).unwrap();
    assert_eq!(p[0].name, "tcp:0");
    assert_eq!(p[0].bind, "0.0.0.0:80");
    assert_eq!(p[0].profile.as_deref(), Some("http"));
    assert_eq!(p[0].iface.as_deref(), Some("eth0"));
    assert_eq!(p[0].upstream, None);
    assert_eq!(p[0].proto, Proto::Tcp);
    assert!(unforwarded(&p[0]).is_none());
    assert_eq!(p[1].name, "mine");
    assert_eq!(p[1].profile.as_deref(), Some("echo"));
    assert_eq!(
        unforwarded(&p[1]).unwrap(),
        "kls: --upstream is tcp only; the udp listener on 0.0.0.0:53 will capture but not forward"
    );
    assert_eq!(
        plan(&Vec::new(), &d).unwrap_err(),
        "nothing to listen on. try: kls tcp:9000 udp:9000  (or --help)"
    );
}

#[test]
fn each_profile_is_loaded_once() {
    let l = listeners(&["tcp:1=b", "tcp:2", "tcp:3=a", "udp:4=b"]);
    let p = plan(&l, &defaults()).unwrap();
    assert_eq!(profiles(&p), vec!["b".to_string(), "a".to_string()]);
}

#[test]
fn a_run_has_failed_when_nothing_came_up() {
    assert!(all_failed(1, 0));
    assert!(!all_failed(1, 1));
    assert!(!all_failed(0, 0));
}

fn recording() -> Recording {
    Recording {
        log_dir: "captures".into(),
        console: ConsoleMode::Hex,
        max_bytes: 3,
        no_raw: false,
        no_jsonl: false,
        no_files: false,
        jsonl_max_data: 256,
        stream_head: 10,
        stream_tail: 20,
        ring: None,
        max_run_bytes: 30,
    }
}

#[test]
fn a_ring_stands_for_both_ends() {
    let o = options(recording());
    assert_eq!((o.stream_limits.head, o.stream_limits.tail), (10, 20));
    assert!(o.jsonl && o.raw);
    assert_eq!((o.max_console_bytes, o.jsonl_max_data, o.max_run_bytes), (3, 256, 30));
    let o = options(Recording { ring: Some(4), no_raw: true, ..recording() });
    assert_eq!((o.stream_limits.head, o.stream_limits.tail), (4, 4));
    assert!(o.jsonl && !o.raw);
    let o = options(Recording { no_jsonl: true, ..recording() });
    assert!(!o.jsonl && o.raw);
    let o = options(Recording { no_files: true, ..recording() });
    assert!(!o.jsonl && !o.raw);
}

#[test]
fn device_names_are_padded_with_zeros() {
    assert_eq!(device_name("eth0"), Ok(*b"eth0\0\0\0\0\0\0\0\0\0\0\0\0"));
    assert_eq!(device_name("123456789012345"), Ok(*b"123456789012345\0"));
    assert!(device_name("").is_err());
    assert!(device_name("1234567890123456").is_err());
    assert_eq!(bad_name(""), "interface name \"\" must be 1 to 15 characters");
}

fn entry(name: &str, description: &str, rules: usize) -> Entry {
    Entry { name: name.into(), description: description.into(), rules }
}

#[test]
fn profiles_are_listed_in_order() {
    let all = sort(vec![
        entry("smtp", "b", 2),
        entry("echo", "", 1),
        entry("smtp", "a", 9),
        entry("\u{e9}", "", 1),
        entry("Zed", "", 1),
        entry("smtp", "a", 3),
    ]);
    let got: Vec<(&str, usize)> = all.iter().map(|e| (e.name.as_str(), e.rules)).collect();
    assert_eq!(
        got,
        vec![("Zed", 1), ("echo", 1), ("smtp", 3), ("smtp", 9), ("smtp", 2), ("\u{e9}", 1)]
    );
    assert_eq!(entry_line(&all[1]), "echo             1 rules  ");
    assert_eq!(
        entry_line(&entry("a-very-long-name", "x", 1234)),
        "a-very-long-name 1234 rules  x"
    );
}

#[test]
fn the_rules_for_transparent_capture() {
    let text = transparent(9999, "snoop", None, false);
    assert!(text.starts_with(
        "# transparent catch-all: every tcp connection made by uid 'snoop' lands in kls,\n\
         # which recovers the real destination from conntrack via SO_ORIGINAL_DST.\n\
         # nothing below is executed for you. read it, then run what you want.\n\
         \n\
         # 1. a throwaway user to scope the redirect (once):\n\
         sudo useradd --no-create-home --shell /usr/sbin/nologin snoop\n\
         \n\
         # 2. start the vacuum on the catch-all port:\n\
         kls tcp:9999\n\
         \n\
         # 3. install the redirect:\n\
         sudo iptables  -t nat -A OUTPUT -p tcp -m owner --uid-owner snoop ! -d 127.0.0.0/8 -j REDIRECT --to-ports 9999\n\
         sudo ip6tables -t nat -A OUTPUT -p tcp -m owner --uid-owner snoop ! -d ::1/128 -j REDIRECT --to-ports 9999\n\
         \n\
         # 4. run the program under test as that user:\n\
         sudo -u snoop ./the-unknown-binary\n\
         \n\
         # 5. tear down (identical rules, -D instead of -A):\n\
         sudo iptables  -t nat -D OUTPUT -p tcp -m owner --uid-owner snoop ! -d 127.0.0.0/8 -j REDIRECT --to-ports 9999\n\
         sudo ip6tables -t nat -D OUTPUT -p tcp -m owner --uid-owner snoop ! -d ::1/128 -j REDIRECT --to-ports 9999\n\
         \n\
         # notes\n"
    ));
    assert!(text.ends_with("the nat table pulls it in automatically."));
    let text = transparent(1, "u", Some("80,443"), true);
    assert!(text.contains(
        "sudo iptables  -t nat -A OUTPUT -p tcp -m owner --uid-owner u -m multiport --dports 80,443 -j REDIRECT --to-ports 1\n"
    ));
}

#[test]
fn the_teardown_is_the_install_with_another_letter() {
    let text = transparent(9999, "snoop", Some("80"), false);
    let added: Vec<String> = text
        .lines()
        .filter(|l| l.contains(" -A OUTPUT "))
        .map(|l| l.replace(" -A OUTPUT ", " -D OUTPUT "))
        .collect();
    let removed: Vec<&str> = text.lines().filter(|l| l.contains(" -D OUTPUT ")).collect();
    assert_eq!(added.len(), 2);
    assert_eq!(added, removed);
}

#[test]
fn profiles_are_known_by_their_extension() {
    assert!(is_profile(Some("toml")));
    assert!(!is_profile(Some("TOML")));
    assert!(!is_profile(Some("tom")));
    assert!(!is_profile(None));
}
