use smexybot::config::Config;

#[test]
fn default_config_values() {
    let c = Config::new(None);
    assert_eq!(c.bot_name, "smexybot");
    assert_eq!(c.command_prefix, ";");
    assert_eq!(c.source_url, "https://github.com/indiv0/smexybot");
    assert!(c.owners.is_empty());
}

#[test]
fn config_parses_a_document() {
    let text = "{\"bot_name\":\"bot\",\"command_prefix\":\"!\",\"source_url\":\"https://example.invalid\",\"owners\":[1,42]}";
    let c = Config::new(Some(text));
    assert_eq!(c.bot_name, "bot");
    assert_eq!(c.command_prefix, "!");
    assert_eq!(c.source_url, "https://example.invalid");
    assert_eq!(c.owners, vec![1, 42]);
}

#[test]
fn unreadable_config_falls_back_to_default() {
    let c = Config::new(Some("ceci n'est pas une config"));
    assert_eq!(c.bot_name, "smexybot");
    let c = Config::new(Some("{\"bot_name\":\"b\"}"));
    assert_eq!(c.bot_name, "smexybot");
}
