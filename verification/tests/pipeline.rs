use intentiq::pipeline::run_analysis;

const AUTH: &str = "May  6 09:12:01 server sshd[1023]: Accepted password for john from 192.168.1.10 port 53422 ssh2
May  6 09:14:02 server sshd[1035]: Failed password for invalid user admin from 185.220.101.12 port 41234 ssh2
May  6 09:14:03 server sshd[1035]: Failed password for invalid user admin from 185.220.101.12 port 41234 ssh2
May  6 09:14:04 server sshd[1035]: Failed password for invalid user admin from 185.220.101.12 port 41234 ssh2
May  6 09:14:05 server sshd[1035]: Failed password for invalid user admin from 185.220.101.12 port 41234 ssh2
May  6 09:14:06 server sshd[1035]: Failed password for invalid user admin from 185.220.101.12 port 41234 ssh2
May  6 09:15:00 server sshd[1040]: Accepted password for admin from 185.220.101.12 port 41240 ssh2
May  6 09:16:05 server sudo: root : TTY=pts/0 ; PWD=/root ; COMMAND=/bin/bash
";

const SYSLOG: &str = "May  6 09:16:10 server systemd[1]: Started Session 102 of user root.
May  6 09:16:30 server kernel: suspicious binary executed: /tmp/.x
May  6 11:00:00 server kernel: suspicious binary executed: /tmp/.y
";

const UFW: &str = "May  6 09:20:01 server kernel: [UFW BLOCK] IN=eth0 SRC=45.33.32.156 DST=192.168.1.5 PROTO=TCP SPT=34567 DPT=80
";

const NGINX: &str = "185.220.101.12 - - [06/May/2026:10:01:10 +0000] \"POST /admin/export HTTP/1.1\" 200 98304
";

#[test]
fn whole_analysis() {
    let a = run_analysis(AUTH, SYSLOG, UFW, NGINX);
    assert_eq!(a.events.len(), 8 + 3 + 1 + 1);
    assert_eq!(a.events[8].source, "syslog");
    let actors: Vec<String> = a.actors.keys.clone();
    assert_eq!(
        actors,
        vec!["192.168.1.10".to_string(), "185.220.101.12".to_string(), "45.33.32.156".to_string()]
    );
    let results: Vec<(String, String)> = a.results.iter().map(|r| (r.actor.clone(), r.intent.clone())).collect();
    assert_eq!(
        results,
        vec![
            ("185.220.101.12".to_string(), "reconnaissance".to_string()),
            ("185.220.101.12".to_string(), "credential_access".to_string()),
            ("185.220.101.12".to_string(), "privilege_escalation + persistence".to_string()),
            ("185.220.101.12".to_string(), "data_exfiltration".to_string()),
        ]
    );
    assert_eq!(a.summaries.len(), 1);
    assert_eq!(a.summaries[0].confidence_sum, 338);
    assert!(a.in_doubt.is_empty());
}
