use yagsdb::config::{config_file_action, ConfigFileAction};

#[test]
fn config_file_decisions() {
    assert_eq!(config_file_action(true, true, true), ConfigFileAction::Load);
    assert_eq!(config_file_action(true, true, false), ConfigFileAction::Load);
    assert_eq!(config_file_action(true, false, true), ConfigFileAction::Invalid);
    assert_eq!(config_file_action(true, false, false), ConfigFileAction::Invalid);
    assert_eq!(config_file_action(false, true, true), ConfigFileAction::CreateFromExample);
    assert_eq!(config_file_action(false, false, true), ConfigFileAction::CreateFromExample);
    assert_eq!(config_file_action(false, false, false), ConfigFileAction::Missing);
}
