//! The settings commands of the command line, applied to loaded settings
//! (reading and writing the settings file is left to the program).

use crate::config::{parse_db_type, Config, ConfigView, DBType};
use crate::error::SaturnError;
use crate::time::Duration;
use vstd::prelude::*;

verus! {

/// Selects the database named `db_type` (`google` or `unixfile`); other
/// names are refused and leave the settings unchanged.
pub fn set_db_type(config: &mut Config, db_type: String) -> (res: Result<(), SaturnError>)
    ensures
        db_type@ == "google"@ ==> res is Ok && final(config)@ == (ConfigView {
            db_type: DBType::Google,
            ..old(config)@
        }),
        db_type@ == "unixfile"@ ==> res is Ok && final(config)@ == (ConfigView {
            db_type: DBType::UnixFile,
            ..old(config)@
        }),
        db_type@ != "google"@ && db_type@ != "unixfile"@ ==> res == Err::<(), SaturnError>(
            SaturnError::InvalidDbType,
        ) && final(config)@ == old(config)@,
{
    proof {
        reveal_strlit("google");
        reveal_strlit("unixfile");
        assert("unixfile"@.len() != "google"@.len());
    }
    match parse_db_type(db_type.as_str()) {
        Ok(typ) => {
            config.set_db_type(typ);
            Ok(())
        },
        Err(e) => Err(e),
    }
}

/// Sets the remote calendar's client id and secret.
pub fn set_client_info(config: &mut Config, client_id: String, client_secret: String)
    ensures
        final(config)@ == (ConfigView {
            client_info: Some((client_id@, client_secret@)),
            ..old(config)@
        }),
{
    config.set_client_info(client_id, client_secret);
}

/// Sets how far ahead the remote calendar is synchronised.
pub fn set_sync_window(config: &mut Config, duration: Duration)
    ensures
        final(config)@ == (ConfigView { sync_duration: Some(duration@), ..old(config)@ }),
{
    config.set_sync_duration(Some(duration));
}

} // verus!
