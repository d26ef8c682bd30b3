//! The user's settings: which database to use, the remote calendar's
//! credentials, and the defaults for durations and clocks.

use crate::error::SaturnError;
use crate::record::opt_str;
use crate::time::{DateTime, Duration};
use vstd::prelude::*;

verus! {

/// Where the records are kept.
#[derive(Clone, Copy, Debug, PartialEq, Eq, Structural)]
pub enum DBType {
    /// A file in the user's home directory.
    UnixFile,
    /// A Google calendar.
    Google,
}

/// The abstract content of the settings; durations are nanoseconds.
pub struct ConfigView {
    pub db_type: DBType,
    pub access_token: Option<Seq<char>>,
    pub access_token_expires_at: Option<DateTime>,
    pub refresh_token: Option<Seq<char>>,
    pub refresh_token_expires_at: Option<DateTime>,
    pub client_info: Option<(Seq<char>, Seq<char>)>,
    pub redirect_url: Option<Seq<char>>,
    pub sync_duration: Option<int>,
    pub default_duration: Option<int>,
    pub use_24h_time: Option<bool>,
    pub query_window: Option<int>,
    pub calendar_id: Seq<char>,
}

impl ConfigView {
    /// How far around today the remote calendar is queried, in nanoseconds:
    /// the configured window, thirty days if none is set.
    pub open spec fn query_length(self) -> int {
        match self.query_window {
            Some(d) => d,
            None => thirty_days(),
        }
    }
}

/// The view of an optional duration.
pub open spec fn opt_nanos(o: Option<Duration>) -> Option<int> {
    match o {
        Some(d) => Some(d@),
        None => None,
    }
}

/// The view of optional client credentials.
pub open spec fn opt_pair(o: Option<(String, String)>) -> Option<(Seq<char>, Seq<char>)> {
    match o {
        Some(p) => Some((p.0@, p.1@)),
        None => None,
    }
}

/// Fifteen minutes, in nanoseconds.
pub open spec fn fifteen_minutes() -> int {
    15 * 60 * 1_000_000_000int
}

/// Thirty days, in nanoseconds.
pub open spec fn thirty_days() -> int {
    30 * 86_400 * 1_000_000_000int
}

/// The user's settings.
#[derive(Debug)]
pub struct Config {
    db_type: DBType,
    access_token: Option<String>,
    access_token_expires_at: Option<DateTime>,
    refresh_token: Option<String>,
    refresh_token_expires_at: Option<DateTime>,
    client_info: Option<(String, String)>,
    redirect_url: Option<String>,
    sync_duration: Option<Duration>,
    default_duration: Option<Duration>,
    use_24h_time: Option<bool>,
    query_window: Option<Duration>,
    calendar_id: String,
}

impl View for Config {
    type V = ConfigView;

    closed spec fn view(&self) -> ConfigView {
        ConfigView {
            db_type: self.db_type,
            access_token: opt_str(self.access_token),
            access_token_expires_at: self.access_token_expires_at,
            refresh_token: opt_str(self.refresh_token),
            refresh_token_expires_at: self.refresh_token_expires_at,
            client_info: opt_pair(self.client_info),
            redirect_url: opt_str(self.redirect_url),
            sync_duration: opt_nanos(self.sync_duration),
            default_duration: opt_nanos(self.default_duration),
            use_24h_time: self.use_24h_time,
            query_window: opt_nanos(self.query_window),
            calendar_id: self.calendar_id@,
        }
    }
}

/// Clones an optional string.
fn clone_opt(o: &Option<String>) -> (res: Option<String>)
    ensures
        opt_str(res) == opt_str(*o),
{
    match o {
        Some(s) => Some(s.clone()),
        None => None,
    }
}

impl Config {
    /// The settings of a new installation: the local file database, a
    /// thirty-day query window, twelve-hour times and the primary calendar.
    pub fn new() -> (res: Config)
        ensures
            res@ == (ConfigView {
                db_type: DBType::UnixFile,
                access_token: None,
                access_token_expires_at: None,
                refresh_token: None,
                refresh_token_expires_at: None,
                client_info: None,
                redirect_url: None,
                sync_duration: None,
                default_duration: None,
                use_24h_time: Some(false),
                query_window: Some(thirty_days()),
                calendar_id: "primary"@,
            }),
    {
        Config {
            db_type: DBType::UnixFile,
            access_token: None,
            access_token_expires_at: None,
            refresh_token: None,
            refresh_token_expires_at: None,
            client_info: None,
            redirect_url: None,
            sync_duration: None,
            default_duration: None,
            use_24h_time: Some(false),
            query_window: Duration::try_days(30),
            calendar_id: "primary".to_owned(),
        }
    }

    /// Settings made of the given parts.
    pub fn from_parts(
        db_type: DBType,
        access_token: Option<String>,
        access_token_expires_at: Option<DateTime>,
        refresh_token: Option<String>,
        refresh_token_expires_at: Option<DateTime>,
        client_info: Option<(String, String)>,
        redirect_url: Option<String>,
        sync_duration: Option<Duration>,
        default_duration: Option<Duration>,
        use_24h_time: Option<bool>,
        query_window: Option<Duration>,
        calendar_id: String,
    ) -> (res: Config)
        ensures
            res@ == (ConfigView {
                db_type,
                access_token: opt_str(access_token),
                access_token_expires_at,
                refresh_token: opt_str(refresh_token),
                refresh_token_expires_at,
                client_info: opt_pair(client_info),
                redirect_url: opt_str(redirect_url),
                sync_duration: opt_nanos(sync_duration),
                default_duration: opt_nanos(default_duration),
                use_24h_time,
                query_window: opt_nanos(query_window),
                calendar_id: calendar_id@,
            }),
    {
        Config {
            db_type,
            access_token,
            access_token_expires_at,
            refresh_token,
            refresh_token_expires_at,
            client_info,
            redirect_url,
            sync_duration,
            default_duration,
            use_24h_time,
            query_window,
            calendar_id,
        }
    }

    pub fn set_calendar_id(&mut self, calendar_id: String)
        ensures
            final(self)@ == (ConfigView { calendar_id: calendar_id@, ..old(self)@ }),
    {
        self.calendar_id = calendar_id;
    }

    pub fn set_access_token(&mut self, access_token: Option<String>)
        ensures
            final(self)@ == (ConfigView { access_token: opt_str(access_token), ..old(self)@ }),
    {
        self.access_token = access_token;
    }

    pub fn set_access_token_expires_at(&mut self, expires_at: Option<DateTime>)
        ensures
            final(self)@ == (ConfigView { access_token_expires_at: expires_at, ..old(self)@ }),
    {
        self.access_token_expires_at = expires_at;
    }

    pub fn set_refresh_token(&mut self, refresh_token: Option<String>)
        ensures
            final(self)@ == (ConfigView { refresh_token: opt_str(refresh_token), ..old(self)@ }),
    {
        self.refresh_token = refresh_token;
    }

    pub fn set_refresh_token_expires_at(&mut self, expires_at: Option<DateTime>)
        ensures
            final(self)@ == (ConfigView { refresh_token_expires_at: expires_at, ..old(self)@ }),
    {
        self.refresh_token_expires_at = expires_at;
    }

    pub fn access_token(&self) -> (res: Option<String>)
        ensures
            opt_str(res) == self@.access_token,
    {
        clone_opt(&self.access_token)
    }

    pub fn access_token_expires_at(&self) -> (res: Option<DateTime>)
        ensures
            res == self@.access_token_expires_at,
    {
        self.access_token_expires_at
    }

    pub fn refresh_token(&self) -> (res: Option<String>)
        ensures
            opt_str(res) == self@.refresh_token,
    {
        clone_opt(&self.refresh_token)
    }

    pub fn refresh_token_expires_at(&self) -> (res: Option<DateTime>)
        ensures
            res == self@.refresh_token_expires_at,
    {
        self.refresh_token_expires_at
    }

    pub fn set_redirect_url(&mut self, redirect_url: Option<String>)
        ensures
            final(self)@ == (ConfigView { redirect_url: opt_str(redirect_url), ..old(self)@ }),
    {
        self.redirect_url = redirect_url;
    }

    pub fn set_default_duration(&mut self, default_duration: Option<Duration>)
        ensures
            final(self)@ == (ConfigView {
                default_duration: opt_nanos(default_duration),
                ..old(self)@
            }),
    {
        self.default_duration = default_duration;
    }

    /// The length of a new scheduled entry: the configured one, fifteen
    /// minutes if none is set.
    pub fn default_duration(&self) -> (res: Duration)
        ensures
            res@ == match self@.default_duration {
                Some(d) => d,
                None => fifteen_minutes(),
            },
    {
        match self.default_duration {
            Some(d) => d,
            None => Duration::try_minutes(15).unwrap(),
        }
    }

    pub fn calendar_id(&self) -> (res: String)
        ensures
            res@ == self@.calendar_id,
    {
        self.calendar_id.clone()
    }

    pub fn redirect_url(&self) -> (res: Option<String>)
        ensures
            opt_str(res) == self@.redirect_url,
    {
        clone_opt(&self.redirect_url)
    }

    pub fn set_db_type(&mut self, typ: DBType)
        ensures
            final(self)@ == (ConfigView { db_type: typ, ..old(self)@ }),
    {
        self.db_type = typ;
    }

    pub fn db_type(&self) -> (res: DBType)
        ensures
            res == self@.db_type,
    {
        self.db_type
    }

    pub fn set_sync_duration(&mut self, sync_duration: Option<Duration>)
        ensures
            final(self)@ == (ConfigView { sync_duration: opt_nanos(sync_duration), ..old(self)@ }),
    {
        self.sync_duration = sync_duration;
    }

    pub fn sync_duration(&self) -> (res: Option<Duration>)
        ensures
            opt_nanos(res) == self@.sync_duration,
    {
        self.sync_duration
    }

    /// Whether times are read on a 24-hour clock (not when unset).
    pub fn use_24h_time(&self) -> (res: bool)
        ensures
            res == match self@.use_24h_time {
                Some(b) => b,
                None => false,
            },
    {
        match self.use_24h_time {
            Some(b) => b,
            None => false,
        }
    }

    pub fn set_use_24h_time(&mut self, use_24h_time: bool)
        ensures
            final(self)@ == (ConfigView { use_24h_time: Some(use_24h_time), ..old(self)@ }),
    {
        self.use_24h_time = Some(use_24h_time);
    }

    /// How far around today the remote calendar is queried: the configured
    /// window, thirty days if none is set.
    pub fn query_window(&self) -> (res: Duration)
        ensures
            res@ == match self@.query_window {
                Some(d) => d,
                None => thirty_days(),
            },
    {
        match self.query_window {
            Some(d) => d,
            None => Duration::try_days(30).unwrap(),
        }
    }

    pub fn set_query_window(&mut self, window: Duration)
        ensures
            final(self)@ == (ConfigView { query_window: Some(window@), ..old(self)@ }),
    {
        self.query_window = Some(window);
    }

    /// Sets the remote calendar's client id and secret.
    pub fn set_client_info(&mut self, client_id: String, client_secret: String)
        ensures
            final(self)@ == (ConfigView {
                client_info: Some((client_id@, client_secret@)),
                ..old(self)@
            }),
    {
        self.client_info = Some((client_id, client_secret));
    }

    pub fn has_client(&self) -> (res: bool)
        ensures
            res == self@.client_info is Some,
    {
        self.client_info.is_some()
    }

    pub fn client_id(&self) -> (res: Option<String>)
        ensures
            opt_str(res) == match self@.client_info {
                Some(p) => Some(p.0),
                None => None,
            },
    {
        match &self.client_info {
            Some(p) => Some(p.0.clone()),
            None => None,
        }
    }

    pub fn client_secret(&self) -> (res: Option<String>)
        ensures
            opt_str(res) == match self@.client_info {
                Some(p) => Some(p.1),
                None => None,
            },
    {
        match &self.client_info {
            Some(p) => Some(p.1.clone()),
            None => None,
        }
    }
}

impl Default for Config {
    fn default() -> (res: Config)
        ensures
            res@ == (ConfigView {
                db_type: DBType::UnixFile,
                access_token: None,
                access_token_expires_at: None,
                refresh_token: None,
                refresh_token_expires_at: None,
                client_info: None,
                redirect_url: None,
                sync_duration: None,
                default_duration: None,
                use_24h_time: Some(false),
                query_window: Some(thirty_days()),
                calendar_id: "primary"@,
            }),
    {
        Config::new()
    }
}

/// The database type named `s`: `google` or `unixfile`.
pub fn parse_db_type(s: &str) -> (res: Result<DBType, SaturnError>)
    ensures
        res == (if s@ == "google"@ {
            Ok::<DBType, SaturnError>(DBType::Google)
        } else if s@ == "unixfile"@ {
            Ok(DBType::UnixFile)
        } else {
            Err(SaturnError::InvalidDbType)
        }),
{
    let c = crate::text::to_chars(s);
    if crate::text::chars_are(c.as_slice(), "google") {
        Ok(DBType::Google)
    } else if crate::text::chars_are(c.as_slice(), "unixfile") {
        Ok(DBType::UnixFile)
    } else {
        Err(SaturnError::InvalidDbType)
    }
}

} // verus!
