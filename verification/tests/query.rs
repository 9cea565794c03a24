use tempmail::encoding::{push_decimal, push_encoded, unreserved};
use tempmail::{Domain, Tempmail};

#[test]
fn format_query_names_login_and_domain() {
    let mail = Tempmail::new("bob", None);
    assert_eq!(mail.format_query(), "login=bob&domain=1secmail.com");
    let mail = Tempmail::new("Alice-01", Some(Domain::XojxeCom));
    assert_eq!(mail.format_query(), "login=Alice-01&domain=xojxe.com");
}

#[test]
fn format_query_holds_each_parameter_once() {
    let names = ["bob", "login=", "domain=", "&login=x&domain=y", "login", "a=b&c", "", "%26"];
    for name in names {
        for domain in [Domain::SecMailCom, Domain::WwjmpCom, Domain::YoggmCom] {
            let query = Tempmail::new(name, Some(domain)).format_query();
            assert_eq!(query.matches("login=").count(), 1, "{query}");
            assert_eq!(query.matches("domain=").count(), 1, "{query}");
            assert_eq!(query.matches('&').count(), 1, "{query}");
            assert_eq!(query.matches('=').count(), 2, "{query}");
            assert!(query.starts_with("login="));
            assert!(query.ends_with(&format!("&domain={}", domain.as_str())));
        }
    }
}

#[test]
fn username_is_percent_encoded() {
    let mail = Tempmail::new("a b&c=d", None);
    assert_eq!(mail.format_query(), "login=a%20b%26c%3Dd&domain=1secmail.com");
    let mail = Tempmail::new("é", None);
    assert_eq!(mail.format_query(), "login=%C3%A9&domain=1secmail.com");
    let mail = Tempmail::new("100%", None);
    assert_eq!(mail.format_query(), "login=100%25&domain=1secmail.com");
    let mail = Tempmail::new("a-b.c_d~e", None);
    assert_eq!(mail.format_query(), "login=a-b.c_d~e&domain=1secmail.com");
}

#[test]
fn generated_usernames_need_no_encoding() {
    let name = "abcdefghijklmnopqrstuvwxyzABCDEFGHIJKLMNOPQRSTUVWXYZ0123456789";
    let mail = Tempmail::new(name, Some(Domain::SecMailNet));
    assert_eq!(mail.format_query(), format!("login={name}&domain=1secmail.net"));
}

#[test]
fn list_query_has_the_service_shape() {
    let mail = Tempmail::new("bob", Some(Domain::SecMailOrg));
    assert_eq!(mail.raw_messages_query(), "action=getMessages&login=bob&domain=1secmail.org");
}

#[test]
fn read_query_has_the_service_shape() {
    let mail = Tempmail::new("bob", Some(Domain::EsiixCom));
    assert_eq!(mail.read_query(639), "action=readMesage&login=bob&domain=esiix.com&id=639");
    assert_eq!(mail.read_query(0), "action=readMesage&login=bob&domain=esiix.com&id=0");
    assert_eq!(
        mail.read_query(usize::MAX),
        format!("action=readMesage&login=bob&domain=esiix.com&id={}", usize::MAX)
    );
}

#[test]
fn download_query_has_the_service_shape() {
    let mail = Tempmail::new("bob", Some(Domain::WwjmpCom));
    assert_eq!(
        mail.attachment_query(12, "report.pdf"),
        "action=download&login=bob&domain=wwjmp.com&id=12&file=report.pdf"
    );
    assert_eq!(
        mail.attachment_query(7, "my file&id=9.txt"),
        "action=download&login=bob&domain=wwjmp.com&id=7&file=my%20file%26id%3D9.txt"
    );
}

#[test]
fn operation_queries_hold_each_parameter_once() {
    let mail = Tempmail::new("x&login=y&domain=z", None);
    for query in [
        mail.raw_messages_query(),
        mail.read_query(10),
        mail.attachment_query(10, "login=&domain=&id=&file="),
    ] {
        assert_eq!(query.matches("login=").count(), 1, "{query}");
        assert_eq!(query.matches("domain=").count(), 1, "{query}");
        assert_eq!(query.matches("action=").count(), 1, "{query}");
        assert!(query.matches("id=").count() <= 1, "{query}");
        assert!(query.matches("file=").count() <= 1, "{query}");
    }
}

#[test]
fn decimal_numerals() {
    for n in [0usize, 1, 9, 10, 11, 99, 100, 101, 12345, 1_000_000, usize::MAX] {
        let mut out = String::from("n=");
        push_decimal(&mut out, n);
        assert_eq!(out, format!("n={n}"));
    }
}

#[test]
fn percent_encoding_of_every_byte() {
    for byte in 0u8..128 {
        let text = (byte as char).to_string();
        let mut out = String::new();
        push_encoded(&mut out, &text);
        let plain = byte.is_ascii_alphanumeric() || b"-._~".contains(&byte);
        assert_eq!(unreserved(byte), plain);
        if plain {
            assert_eq!(out, text);
        } else {
            assert_eq!(out, format!("%{byte:02X}"));
        }
    }
    for byte in 128u8..=255 {
        assert!(!unreserved(byte));
    }
}

#[test]
fn percent_encoding_appends_and_encodes_utf8() {
    let mut out = String::from("file=");
    push_encoded(&mut out, "naïve €.txt");
    assert_eq!(out, "file=na%C3%AFve%20%E2%82%AC.txt");
    push_encoded(&mut out, "");
    assert_eq!(out, "file=na%C3%AFve%20%E2%82%AC.txt");
    let mut out = String::new();
    push_encoded(&mut out, "\u{1F600}/\n");
    assert_eq!(out, "%F0%9F%98%80%2F%0A");
}

#[test]
fn distinct_identities_have_distinct_queries() {
    let identities = [
        Tempmail::new("a", Some(Domain::SecMailCom)),
        Tempmail::new("a", Some(Domain::SecMailOrg)),
        Tempmail::new("a&domain=1secmail.org", Some(Domain::SecMailCom)),
        Tempmail::new("a%26domain%3D1secmail.org", Some(Domain::SecMailCom)),
        Tempmail::new("A", Some(Domain::SecMailCom)),
        Tempmail::new("", Some(Domain::SecMailCom)),
        Tempmail::new("a ", Some(Domain::SecMailCom)),
        Tempmail::new("a%20", Some(Domain::SecMailCom)),
    ];
    for (i, first) in identities.iter().enumerate() {
        for second in &identities[i + 1..] {
            assert_ne!(first.format_query(), second.format_query());
            assert_ne!(first.raw_messages_query(), second.raw_messages_query());
            assert_ne!(first.read_query(1), second.read_query(1));
        }
        assert_ne!(first.read_query(1), first.read_query(10));
        assert_ne!(first.attachment_query(1, "a b"), first.attachment_query(1, "a%20b"));
        assert_ne!(first.attachment_query(1, "23"), first.attachment_query(12, "3"));
    }
}
