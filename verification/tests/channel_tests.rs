use channels::channel::{Channel, ChannelName};

#[test]
fn valid_name_is_kept_exactly() {
    let name = ChannelName::new("general".to_string()).unwrap();
    assert_eq!(name.as_str(), "general");
}

#[test]
fn boundary_lengths_are_accepted() {
    assert!(ChannelName::new("abc".to_string()).is_ok());
    assert!(ChannelName::new("exactly-twenty-chars".to_string()).is_ok());
}

#[test]
fn too_short_name_is_rejected_with_length_message() {
    let err = ChannelName::new("ab".to_string()).unwrap_err();
    assert_eq!(err, "Channel name must be between 3 and 20 characters");
}

#[test]
fn too_long_name_is_rejected_with_length_message() {
    let err = ChannelName::new("twenty-one-chars-long".to_string()).unwrap_err();
    assert_eq!(err, "Channel name must be between 3 and 20 characters");
}

#[test]
fn name_with_space_is_rejected_with_space_message() {
    let err = ChannelName::new("has space".to_string()).unwrap_err();
    assert_eq!(err, "Channel name cannot contain spaces");
}

#[test]
fn name_with_tab_is_rejected() {
    let err = ChannelName::new("ab\tc".to_string()).unwrap_err();
    assert_eq!(err, "Channel name cannot contain spaces");
}

#[test]
fn name_with_newline_or_carriage_return_is_rejected() {
    let err = ChannelName::new("ab\ncd".to_string()).unwrap_err();
    assert_eq!(err, "Channel name cannot contain spaces");
    let err = ChannelName::new("ab\rcd".to_string()).unwrap_err();
    assert_eq!(err, "Channel name cannot contain spaces");
}

#[test]
fn length_rule_counts_bytes_not_characters() {
    // Eleven characters, but twenty-two UTF-8 bytes.
    let err = ChannelName::new("ééééééééééé".to_string()).unwrap_err();
    assert_eq!(err, "Channel name must be between 3 and 20 characters");
}

#[test]
fn new_channel_is_active() {
    let name = ChannelName::new("fresh".to_string()).unwrap();
    let channel = Channel::new(name);
    assert!(channel.is_active());
    assert_eq!(channel.name().as_str(), "fresh");
}

#[test]
fn deactivate_clears_the_flag_and_nothing_else() {
    let name = ChannelName::new("flagged".to_string()).unwrap();
    let mut channel = Channel::new(name);
    let id = channel.id();
    channel.deactivate();
    assert!(!channel.is_active());
    assert_eq!(channel.id(), id);
    assert_eq!(channel.name().as_str(), "flagged");
}

#[test]
fn rename_replaces_only_the_name() {
    let name = ChannelName::new("old-name".to_string()).unwrap();
    let mut channel = Channel::new(name);
    let id = channel.id();
    channel.rename(ChannelName::new("new-name".to_string()).unwrap());
    assert_eq!(channel.name().as_str(), "new-name");
    assert_eq!(channel.id(), id);
    assert!(channel.is_active());
}

#[test]
fn fresh_channels_draw_distinct_ids() {
    let a = Channel::new(ChannelName::new("one".to_string()).unwrap());
    let b = Channel::new(ChannelName::new("two".to_string()).unwrap());
    assert_ne!(a.id(), b.id());
}
