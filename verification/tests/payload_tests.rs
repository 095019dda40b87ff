use ata::chars::chars_to_string;
use ata::completion::completion_text;
use ata::config::Config;
use ata::config::ConfigLocation;
use ata::config::PathProbe;
use ata::config::default_path;
use ata::payload::build_bearer;
use ata::payload::build_completion_body;
use ata::payload::build_request_body;
use ata::payload::render_i64;
use ata::url::ensure_scheme;
use serde_json::Value;

fn parse(body: &str) -> Value {
    serde_json::from_str(body).unwrap()
}

#[test]
fn chat_body_has_expected_text() {
    let config = Config {
        api_key: "k".to_string(),
        model: "gpt-4".to_string(),
        max_tokens: 2048,
        temperature: "0.8".to_string(),
    };
    let body = build_request_body(&config, "Hello\n");
    assert_eq!(
        body,
        "{\"max_tokens\":2048,\"messages\":[{\"content\":\"Hello\\\\n\\\\n\",\"role\":\"user\"}],\"model\":\"gpt-4\",\"stream\":true,\"temperature\":0.8}"
    );
    // The body must be well-formed JSON with the prompt recoverable.
    let v = parse(&body);
    assert_eq!(v["stream"], Value::Bool(true));
    assert_eq!(
        v["messages"][0]["content"].as_str(),
        Some("Hello\\n\\n")
    );
}

#[test]
fn chat_body_escapes_quotes() {
    let config = Config {
        api_key: "k".to_string(),
        model: "m".to_string(),
        max_tokens: 1,
        temperature: "0".to_string(),
    };
    let body = build_request_body(&config, "say \"hi\"\n");
    // Sanitizing turns `"` into `\"`; JSON escaping then doubles the
    // backslash and escapes the quote again.
    assert!(body.contains("say \\\\\\\"hi\\\\\\\"\\\\n\\\\n"));
    assert_eq!(
        parse(&body)["messages"][0]["content"].as_str(),
        Some("say \\\"hi\\\"\\n\\n")
    );
}

#[test]
fn completion_body_has_expected_text() {
    let body = build_completion_body("m", "Hi\n", 5, 1);
    assert_eq!(
        body,
        "{\"max_tokens\":5,\"model\":\"m\",\"prompt\":\"Hi\\\\n\\\\n\",\"temperature\":1}"
    );
    assert_eq!(parse(&body)["prompt"].as_str(), Some("Hi\\n\\n"));
}

#[test]
fn bearer_header_value() {
    assert_eq!(build_bearer("secret"), "Bearer secret".to_string());
}

#[test]
fn numbers_render_in_decimal() {
    assert_eq!(chars_to_string(&render_i64(0)), "0");
    assert_eq!(chars_to_string(&render_i64(7)), "7");
    assert_eq!(chars_to_string(&render_i64(2048)), "2048");
    assert_eq!(chars_to_string(&render_i64(-42)), "-42");
    assert_eq!(
        chars_to_string(&render_i64(i64::MAX)),
        "9223372036854775807"
    );
    assert_eq!(
        chars_to_string(&render_i64(i64::MIN)),
        "-9223372036854775808"
    );
}

#[test]
fn scheme_is_completed() {
    assert_eq!(ensure_scheme("example.com"), "http://example.com".to_string());
    assert_eq!(
        ensure_scheme("https://example.com"),
        "https://example.com".to_string()
    );
}

#[test]
fn completion_text_reads_choice() {
    let body = b"{\"choices\":[{\"text\":\"hello\"}]}";
    assert_eq!(completion_text(body), Ok("\"hello\"".to_string()));
}

#[test]
fn completion_text_reads_error_message() {
    let body = b"{\"error\":{\"message\":\"oops\"}}";
    assert_eq!(completion_text(body), Ok("\"oops\"".to_string()));
}

#[test]
fn completion_text_rejects_bad_bodies() {
    assert!(completion_text(b"not json").is_err());
    assert!(completion_text(&[0xff, 0xfe]).is_err());
}

#[test]
fn location_is_classified() {
    assert_eq!(ConfigLocation::from_str(""), ConfigLocation::Auto);
    assert_eq!(
        ConfigLocation::from_str("work"),
        ConfigLocation::Named("work".to_string())
    );
    assert_eq!(
        ConfigLocation::from_str("conf.toml"),
        ConfigLocation::Path("conf.toml".to_string())
    );
}

fn probe(old_exists: bool, local: bool) -> PathProbe {
    PathProbe {
        old_default_exists: old_exists,
        local_exists: local,
        old_config_dir: "/old".to_string(),
        new_config_dir: "/new".to_string(),
    }
}

#[test]
fn default_paths_are_joined() {
    assert_eq!(default_path(None, "/cfg"), "/cfg/ata.toml".to_string());
    assert_eq!(
        default_path(Some("work"), "/cfg"),
        "/cfg/work.toml".to_string()
    );
    assert_eq!(
        default_path(Some("old.cfg"), "/cfg"),
        "/cfg/old.toml".to_string()
    );
}

#[test]
fn locations_resolve() {
    let loc = ConfigLocation::Path("mine.toml".to_string());
    assert_eq!(loc.location(false, &probe(false, false)), "mine.toml");

    let auto = ConfigLocation::Auto;
    assert_eq!(
        auto.location(false, &probe(true, false)),
        "/old/ata.toml"
    );
    assert_eq!(
        auto.location(false, &probe(false, false)),
        "/new/ata.toml"
    );

    let named = ConfigLocation::Named("default".to_string());
    assert_eq!(named.location(false, &probe(false, true)), "ata.toml");
    assert_eq!(
        named.location(false, &probe(false, false)),
        "/new/ata.toml"
    );
    assert_eq!(
        named.location(true, &probe(false, false)),
        "/old/ata.toml"
    );

    let named_other = ConfigLocation::Named("work".to_string());
    assert_eq!(
        named_other.location(false, &probe(false, false)),
        "/new/work.toml"
    );
}
