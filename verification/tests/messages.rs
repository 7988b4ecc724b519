use elfo::messages::{ConfigUpdated, ConfigVerdict, Terminate, ValidateConfig};

#[test]
fn built_in_messages() {
    assert_eq!(ConfigUpdated, ConfigUpdated);
    assert_eq!(Terminate, Terminate);
    let ask = ValidateConfig { config: 5u32, source: "file".to_string() };
    let copy = ask.clone();
    assert_eq!(copy.config, 5);
    assert_eq!(copy.source, "file");
    let refused: ConfigVerdict = Err("oops".to_string());
    assert!(refused.is_err());
}
