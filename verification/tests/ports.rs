use bkg_beam::ports::{create_tunnel_url, host_port, parse_me_port, parse_up_port, tunnel_id, tunnel_url};

#[test]
fn me_port_with_and_without_marker() {
    assert_eq!(parse_me_port("22:me"), Ok(22));
    assert_eq!(parse_me_port("22"), Ok(22));
    assert_eq!(parse_me_port("  3000:me \n"), Ok(3000));
    assert_eq!(parse_me_port("+22:me"), Ok(22));
}

#[test]
fn me_port_refusals_name_the_trimmed_argument() {
    assert_eq!(parse_me_port("abc"), Err("Invalid port in 'abc'".to_string()));
    assert_eq!(parse_me_port(" x:me "), Err("Invalid port in 'x:me'".to_string()));
    assert_eq!(parse_me_port(":me"), Err("Invalid port in ':me'".to_string()));
    assert_eq!(parse_me_port("22:me:me"), Err("Invalid port in '22:me:me'".to_string()));
    assert_eq!(parse_me_port("70000:me"), Err("Invalid port in '70000:me'".to_string()));
    assert_eq!(parse_me_port("up:22"), Err("Invalid port in 'up:22'".to_string()));
    assert_eq!(parse_me_port("22 :me"), Err("Invalid port in '22 :me'".to_string()));
}

#[test]
fn up_port_with_and_without_marker() {
    assert_eq!(parse_up_port("up:22"), Ok(22));
    assert_eq!(parse_up_port("22"), Ok(22));
    assert_eq!(parse_up_port(" up:65535\t"), Ok(65535));
}

#[test]
fn up_port_refusals_name_the_trimmed_argument() {
    assert_eq!(parse_up_port("up:"), Err("Invalid port in 'up:'".to_string()));
    assert_eq!(parse_up_port("up:65536"), Err("Invalid port in 'up:65536'".to_string()));
    assert_eq!(parse_up_port("22:me"), Err("Invalid port in '22:me'".to_string()));
    assert_eq!(parse_up_port("UP:22"), Err("Invalid port in 'UP:22'".to_string()));
}

#[test]
fn port_arguments_read_back() {
    for p in [0u16, 1, 22, 443, 3000, 65535] {
        assert_eq!(parse_me_port(&format!("{}:me", p)), Ok(p));
        assert_eq!(parse_me_port(&p.to_string()), Ok(p));
        assert_eq!(parse_up_port(&format!("up:{}", p)), Ok(p));
        assert_eq!(parse_up_port(&p.to_string()), Ok(p));
    }
}

#[test]
fn tunnel_names() {
    assert_eq!(tunnel_id(22, 22), "22-me_up-22");
    assert_eq!(tunnel_id(3000, 80), "3000-me_up-80");
    assert_eq!(tunnel_url(22, 22, "beam.eysho.info"), "22-me.up-22.beam.eysho.info");
    assert_eq!(tunnel_url(3000, 443, "example.org"), "3000-me.up-443.example.org");
    assert_eq!(host_port("beam.eysho.info", 8080), "beam.eysho.info:8080");
    assert_eq!(host_port("127.0.0.1", 22), "127.0.0.1:22");
}

#[test]
fn admin_create_tunnel_needs_both_ports() {
    assert_eq!(create_tunnel_url(0, 22, "beam.eysho.info"), None);
    assert_eq!(create_tunnel_url(22, 0, "beam.eysho.info"), None);
    assert_eq!(create_tunnel_url(0, 0, "beam.eysho.info"), None);
    assert_eq!(
        create_tunnel_url(22, 2222, "beam.eysho.info"),
        Some("22-me.up-2222.beam.eysho.info".to_string())
    );
}
