use aidms_core::net::{chat_url_for, check_allowed_host, embed_url_for, extract_host, first_restricted, is_restricted_ip, IpAddress};

fn v4(a: u8, b: u8, c: u8, d: u8) -> IpAddress {
    IpAddress::V4(a, b, c, d)
}

fn v6(s: [u16; 8]) -> IpAddress {
    IpAddress::V6(s[0], s[1], s[2], s[3], s[4], s[5], s[6], s[7])
}

#[test]
fn loopback_not_restricted_local_ollama_ok() {
    assert!(!is_restricted_ip(&v4(127, 0, 0, 1)));
    assert!(!is_restricted_ip(&v6([0, 0, 0, 0, 0, 0, 0, 1])));
}

#[test]
fn private_linklocal_unspecified_still_restricted() {
    assert!(is_restricted_ip(&v4(10, 0, 0, 5)));
    assert!(is_restricted_ip(&v4(192, 168, 1, 1)));
    assert!(is_restricted_ip(&v4(172, 16, 0, 1)));
    assert!(is_restricted_ip(&v4(169, 254, 169, 254)));
    assert!(is_restricted_ip(&v4(0, 0, 0, 0)));
}

#[test]
fn ipv6_restricted_segments_blacklisted() {
    // fe80::1, fc00::1, fd12:3456::1, ::ffff:169.254.169.254, ::ffff:10.0.0.5, ::
    assert!(is_restricted_ip(&v6([0xfe80, 0, 0, 0, 0, 0, 0, 1])));
    assert!(is_restricted_ip(&v6([0xfc00, 0, 0, 0, 0, 0, 0, 1])));
    assert!(is_restricted_ip(&v6([0xfd12, 0x3456, 0, 0, 0, 0, 0, 1])));
    assert!(is_restricted_ip(&v6([0, 0, 0, 0, 0, 0xffff, 0xa9fe, 0xa9fe])));
    assert!(is_restricted_ip(&v6([0, 0, 0, 0, 0, 0xffff, 0x0a00, 0x0005])));
    assert!(is_restricted_ip(&v6([0, 0, 0, 0, 0, 0, 0, 0])));
}

#[test]
fn ipv6_loopback_and_mapped_loopback_allowed() {
    // ::1, ::ffff:127.0.0.1, 2400:3200::1
    assert!(!is_restricted_ip(&v6([0, 0, 0, 0, 0, 0, 0, 1])));
    assert!(!is_restricted_ip(&v6([0, 0, 0, 0, 0, 0xffff, 0x7f00, 0x0001])));
    assert!(!is_restricted_ip(&v6([0x2400, 0x3200, 0, 0, 0, 0, 0, 1])));
}

#[test]
fn non_whitelisted_private_blocked() {
    let allowed: Vec<String> = Vec::new();
    assert!(check_allowed_host(&allowed, "192.168.1.10").is_err());
}

#[test]
fn allow_list_message_and_pass() {
    let allowed = vec!["127.0.0.1".to_string(), "localhost".to_string()];
    assert!(check_allowed_host(&allowed, "localhost").is_ok());
    assert_eq!(
        check_allowed_host(&allowed, "example.com").unwrap_err(),
        "SSRF 防护：目标主机不在白名单: example.com"
    );
}

#[test]
fn first_restricted_address() {
    let addrs = vec![v4(8, 8, 8, 8), v4(10, 1, 2, 3), v4(192, 168, 0, 1)];
    assert_eq!(first_restricted(&addrs), Some(1));
    assert_eq!(first_restricted(&vec![v4(127, 0, 0, 1)]), None);
}

#[test]
fn embed_url_openai_compat_v1_normalized() {
    assert_eq!(
        embed_url_for("openai_compat", "https://api.siliconflow.cn"),
        "https://api.siliconflow.cn/v1/embeddings"
    );
    assert_eq!(
        embed_url_for("openai_compat", "https://api.openai.com/v1"),
        "https://api.openai.com/v1/embeddings"
    );
    assert_eq!(
        embed_url_for("openai_compat", "https://api.openai.com/v1/"),
        "https://api.openai.com/v1/embeddings"
    );
    assert_eq!(
        embed_url_for("openai_compat", "https://api.deepseek.com/"),
        "https://api.deepseek.com/v1/embeddings"
    );
    assert_eq!(embed_url_for("unknown", "https://example.com"), "https://example.com/v1/embeddings");
}

#[test]
fn embed_url_ollama_unchanged() {
    assert_eq!(embed_url_for("ollama", "http://127.0.0.1:11434"), "http://127.0.0.1:11434/api/embed");
    assert_eq!(embed_url_for("ollama", "http://127.0.0.1:11434/"), "http://127.0.0.1:11434/api/embed");
    assert_eq!(embed_url_for("ollama", "http://127.0.0.1:11434/v1"), "http://127.0.0.1:11434/v1/api/embed");
}

#[test]
fn chat_url_v1_not_doubled() {
    assert_eq!(chat_url_for("https://api.openai.com/v1"), "https://api.openai.com/v1/chat/completions");
    assert_eq!(chat_url_for("http://127.0.0.1:11434//"), "http://127.0.0.1:11434/v1/chat/completions");
}

#[test]
fn host_of_urls() {
    assert_eq!(extract_host("https://api.openai.com/v1").unwrap(), "api.openai.com");
    assert_eq!(extract_host("http://127.0.0.1:11434").unwrap(), "127.0.0.1");
    assert_eq!(extract_host("data:text/plain,Stuff").unwrap_err(), "URL 缺少 host");
    assert!(extract_host("not a url").unwrap_err().starts_with("URL 解析失败: "));
}

#[test]
fn whitelisted_localhost_passes_assert() {
    let allowed = vec!["127.0.0.1".to_string(), "localhost".to_string()];
    // an allowed local host whose addresses are loopback passes
    assert!(check_allowed_host(&allowed, "127.0.0.1").is_ok());
    assert!(check_allowed_host(&allowed, "localhost").is_ok());
    let localhost = vec![v4(127, 0, 0, 1), v6([0, 0, 0, 0, 0, 0, 0, 1])];
    assert_eq!(first_restricted(&localhost), None);
    // a host outside the allow list is refused
    assert!(check_allowed_host(&allowed, "example.com").is_err());
}
