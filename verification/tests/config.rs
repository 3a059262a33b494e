use haze::config::Config;
use haze::error::Error;

fn text(value: &str) -> String {
    value.to_string()
}

#[test]
fn comments_are_blanked_before_parsing() {
    let read = Ok(text("{\"worlds\": [\"w/*\"]} // tail"));
    assert_eq!(
        Config::text("config.json", "/cwd", read),
        Ok(text("{\"worlds\": [\"w/*\"]}        "))
    );

    let read = Ok(text("{/* Comment */\"hi\": /** abc */ \"bye\"}"));
    assert_eq!(
        Config::text("config.json", "/cwd", read),
        Ok(text("{             \"hi\":            \"bye\"}"))
    );
}

#[test]
fn trailing_commas_are_blanked_before_parsing() {
    let read = Ok(text("{\"worlds\": [\"a\",]}"));
    assert_eq!(
        Config::text("config.json", "/cwd", read),
        Ok(text("{\"worlds\": [\"a\" ]}"))
    );
}

#[test]
fn hash_is_no_comment() {
    let read = Ok(text("# no comment\n{}"));
    assert_eq!(Config::text("config.json", "/cwd", read), Ok(text("# no comment\n{}")));
}

#[test]
fn text_without_comments_is_kept() {
    let read = Ok(text("{\"worlds\": [\"a//b\", \"c/*\"]}"));
    assert_eq!(
        Config::text("config.json", "/cwd", read),
        Ok(text("{\"worlds\": [\"a//b\", \"c/*\"]}"))
    );
}

#[test]
fn a_stripped_config_parses() {
    let read = Ok(text("{\n  // the worlds\n  \"worlds\": [\"worlds/*\", /* more */ \"other/*\",],\n}"));
    let stripped = Config::text("config.json", "/cwd", read).unwrap();
    let parsed: serde_json::Value = serde_json::from_str(&stripped).unwrap();
    let worlds: Vec<String> = parsed["worlds"]
        .as_array()
        .unwrap()
        .iter()
        .map(|value| value.as_str().unwrap().to_string())
        .collect();

    let config = Config::load("config.json", "/cwd", Ok(worlds)).unwrap();
    assert_eq!(config.worlds, vec![text("worlds/*"), text("other/*")]);
}

#[test]
fn a_file_that_cannot_be_read_is_not_found() {
    assert_eq!(
        Config::text("config.json", "/cwd", Err(text("No such file or directory (os error 2)"))),
        Err(Error::ConfigNotFound {
            path: text("config.json"),
            cwd: text("/cwd"),
            source: text("No such file or directory (os error 2)"),
        })
    );
}

#[test]
fn a_broken_comment_is_a_format_error() {
    let error = Config::text("config.json", "/cwd", Ok(text("{} /x"))).unwrap_err();
    assert!(matches!(
        &error,
        Error::ConfigFormat { path, cwd, .. } if path == "config.json" && cwd == "/cwd"
    ));
    assert_eq!(error.message(), "could not parse `config.json` in `/cwd`");
}

#[test]
fn without_comments_passes_the_text_on() {
    assert_eq!(Config::without_comments("c", "d", Ok(text("{}"))), Ok(text("{}")));
    assert_eq!(
        Config::without_comments("c", "d", Err(text("invalid data"))),
        Err(Error::ConfigFormat { path: text("c"), cwd: text("d"), source: text("invalid data") })
    );
}

#[test]
fn a_text_that_does_not_parse_is_a_format_error() {
    let source = match serde_json::from_str::<serde_json::Value>("{\"worlds\": ") {
        Ok(_) => panic!("the text should not parse"),
        Err(error) => error.to_string(),
    };
    assert_eq!(
        Config::load("config.json", "/cwd", Err(source.clone())),
        Err(Error::ConfigFormat { path: text("config.json"), cwd: text("/cwd"), source })
    );
}

#[test]
fn a_parsed_config_holds_its_patterns() {
    let config = Config::load("config.json", "/cwd", Ok(vec![text("a/*"), text("b/*")])).unwrap();
    assert_eq!(config, Config { worlds: vec![text("a/*"), text("b/*")] });
}
