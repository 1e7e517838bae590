use seeyuj::commands::{Command, CreateWorldCmd, CreateZoneCmd};
use seeyuj::types::{RngSeed, ZoneId};
use seeyuj::validation::validate_command;

#[test]
fn validate_empty_world_name() {
    let cmd = Command::CreateWorld(CreateWorldCmd {
        name: String::new(),
        seed: RngSeed::new(42),
    });
    let result = validate_command(&cmd);
    assert!(result.is_err());
}

#[test]
fn validate_tick_zero() {
    let result = validate_command(&Command::TickN(0));
    assert!(result.is_err());
}

#[test]
fn validate_tick_too_large() {
    assert!(validate_command(&Command::TickN(10001)).is_err());
    assert!(validate_command(&Command::TickN(10000)).is_ok());
    assert!(validate_command(&Command::TickN(1)).is_ok());
}

#[test]
fn validate_long_zone_name() {
    let long_name: String = "z".repeat(65);
    let cmd = Command::CreateZone(CreateZoneCmd {
        zone_id: ZoneId::new(7),
        name: Some(long_name),
    });
    assert!(validate_command(&cmd).is_err());
    let ok_cmd = Command::CreateZone(CreateZoneCmd {
        zone_id: ZoneId::new(7),
        name: None,
    });
    assert!(validate_command(&ok_cmd).is_ok());
}

#[test]
fn validation_error_fields() {
    match validate_command(&Command::TickN(0)) {
        Err(errors) => {
            assert_eq!(errors.len(), 1);
            assert_eq!(errors[0].field, "n");
            assert_eq!(errors[0].message, "Tick count must be > 0");
        }
        Ok(()) => panic!("expected a validation failure"),
    }
}
