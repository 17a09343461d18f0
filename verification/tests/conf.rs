use todor::conf::Config;

#[test]
fn test_config_update() {
    let mut conf = Config::default();
    let aconf = Config { basedir: Some("/nowhere".into()), blink: Some(false) };
    conf.update_with(&aconf);
    assert_eq!(conf.basedir, Some("/nowhere".into()));
    assert_eq!(conf.blink, Some(false));
}

#[test]
fn test_config_update_keeps_unset_fields() {
    let mut conf = Config { basedir: Some("/kept".into()), blink: Some(true) };
    conf.update_with(&Config { basedir: None, blink: None });
    assert_eq!(conf.basedir, Some("/kept".into()));
    assert_eq!(conf.blink, Some(true));
}
