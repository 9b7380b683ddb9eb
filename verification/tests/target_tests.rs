use statussentinel::probe::parse_probe_target;

#[test]
fn plain_urls_go_to_the_reachability_probe() {
    assert!(parse_probe_target("https://example.com").is_none());
    assert!(parse_probe_target("http://a.example/x").is_none());
    assert!(parse_probe_target("").is_none());
    assert!(parse_probe_target("mc:/").is_none());
}

#[test]
fn handshake_target_with_port() {
    let (host, port) = parse_probe_target("mc://play.example.org:25570").unwrap();
    assert_eq!(host, b"play.example.org".to_vec());
    assert_eq!(port, 25570);
}

#[test]
fn handshake_target_without_port_gets_the_default() {
    let (host, port) = parse_probe_target("mc://play.example.org").unwrap();
    assert_eq!(host, b"play.example.org".to_vec());
    assert_eq!(port, 25565);
}

#[test]
fn unparsable_ports_fall_back_to_the_default() {
    assert_eq!(parse_probe_target("mc://h:").unwrap().1, 25565);
    assert_eq!(parse_probe_target("mc://h:99999").unwrap().1, 25565);
    assert_eq!(parse_probe_target("mc://h:12ab").unwrap().1, 25565);
    assert_eq!(parse_probe_target("mc://h:80:90").unwrap().1, 25565);
    assert_eq!(parse_probe_target("mc://h:-80").unwrap().1, 25565);
}

#[test]
fn port_parse_accepts_a_plus_sign() {
    assert_eq!(parse_probe_target("mc://h:+80").unwrap().1, 80);
    assert_eq!(parse_probe_target("mc://h:080").unwrap().1, 80);
    assert_eq!(parse_probe_target("mc://h:65535").unwrap().1, 65535);
}
