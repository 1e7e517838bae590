//! Input validation: every field check runs before any state changes.

use vstd::prelude::*;

use crate::commands::{Command, CreateWorldCmd, CreateZoneCmd, SpawnEntityCmd};
use crate::errors::{errors_view, ValidationError, ValidationErrorView};
use vstd::string::StrSliceExecFns;

verus! {

/// The largest number of ticks a single `TickN` command may request.
pub const MAX_TICKN: u32 = 10000;

/// The largest accepted name length, in characters.
pub const MAX_NAME_LEN: usize = 64;

/// The validation failures of a `CreateWorld` command: the name must be
/// non-empty and at most 64 characters.
pub open spec fn create_world_violations(name: Seq<char>) -> Seq<ValidationErrorView> {
    let empty_err = ValidationErrorView {
        field: "name"@,
        message: "World name cannot be empty"@,
    };
    let long_err = ValidationErrorView {
        field: "name"@,
        message: "World name too long (max 64 chars)"@,
    };
    if name.len() == 0 {
        seq![empty_err]
    } else if name.len() > 64 {
        seq![long_err]
    } else {
        Seq::empty()
    }
}

/// The validation failures of a `TickN` command: the count must be between
/// 1 and 10000.
pub open spec fn tick_n_violations(n: u32) -> Seq<ValidationErrorView> {
    if n == 0 {
        seq![
            ValidationErrorView { field: "n"@, message: "Tick count must be > 0"@ },
        ]
    } else if n > 10000 {
        seq![
            ValidationErrorView { field: "n"@, message: "Tick count too large (max 10000)"@ },
        ]
    } else {
        Seq::empty()
    }
}

/// The validation failures of a `CreateZone` command: a name, if given, must
/// be at most 64 characters.
pub open spec fn create_zone_violations(name: Option<Seq<char>>) -> Seq<ValidationErrorView> {
    match name {
        Some(n) => if n.len() > 64 {
            seq![
                ValidationErrorView { field: "name"@, message: "Zone name too long (max 64 chars)"@ },
            ]
        } else {
            Seq::empty()
        },
        None => Seq::empty(),
    }
}

/// The validation failures of any command.  Commands not listed here carry
/// no validated fields.
pub open spec fn command_violations(cmd: &Command) -> Seq<ValidationErrorView> {
    match cmd {
        Command::CreateWorld(c) => create_world_violations(c.name@),
        Command::TickN(n) => tick_n_violations(*n),
        Command::CreateZone(c) => create_zone_violations(
            match c.name {
                Some(ref s) => Some(s@),
                None => None,
            },
        ),
        _ => Seq::empty(),
    }
}

/// Validate a command before processing.
///
/// Returns `Ok(())` exactly when the command carries no violations, and
/// otherwise the full list of violations in field order.
pub fn validate_command(cmd: &Command) -> (r: Result<(), Vec<ValidationError>>)
    ensures
        match r {
            Ok(()) => command_violations(cmd).len() == 0,
            Err(errs) => errs@.len() > 0 && errors_view(errs@) =~= command_violations(cmd),
        },
{
    let errors: Vec<ValidationError> = match cmd {
        Command::CreateWorld(c) => validate_create_world(c),
        Command::SpawnEntity(c) => validate_spawn_entity(c),
        Command::CreateZone(c) => validate_create_zone(c),
        Command::TickN(n) => {
            if *n == 0 {
                let mut v: Vec<ValidationError> = Vec::new();
                v.push(ValidationError::new("n", "Tick count must be > 0"));
                v
            } else if *n > MAX_TICKN {
                let mut v: Vec<ValidationError> = Vec::new();
                v.push(ValidationError::new("n", "Tick count too large (max 10000)"));
                v
            } else {
                Vec::new()
            }
        },
        _ => Vec::new(),
    };

    if errors.len() == 0 {
        Ok(())
    } else {
        Err(errors)
    }
}

/// Check the fields of a `CreateWorld` command.
pub fn validate_create_world(cmd: &CreateWorldCmd) -> (r: Vec<ValidationError>)
    ensures
        errors_view(r@) =~= create_world_violations(cmd.name@),
{
    let mut errors: Vec<ValidationError> = Vec::new();

    if cmd.name.as_str().is_empty() {
        errors.push(ValidationError::new("name", "World name cannot be empty"));
    }
    if cmd.name.as_str().unicode_len() > MAX_NAME_LEN {
        errors.push(ValidationError::new("name", "World name too long (max 64 chars)"));
    }

    errors
}

/// Check the fields of a `SpawnEntity` command; nothing is restricted yet.
pub fn validate_spawn_entity(_cmd: &SpawnEntityCmd) -> (r: Vec<ValidationError>)
    ensures
        r@.len() == 0,
{
    Vec::new()
}

/// Check the fields of a `CreateZone` command.
pub fn validate_create_zone(cmd: &CreateZoneCmd) -> (r: Vec<ValidationError>)
    ensures
        errors_view(r@) =~= create_zone_violations(
            match cmd.name {
                Some(ref s) => Some(s@),
                None => None,
            },
        ),
{
    let mut errors: Vec<ValidationError> = Vec::new();

    if let Some(name) = &cmd.name {
        if name.as_str().unicode_len() > MAX_NAME_LEN {
            errors.push(ValidationError::new("name", "Zone name too long (max 64 chars)"));
        }
    }

    errors
}

} // verus!
