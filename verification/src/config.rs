//! Plain configuration data. Loading the file, parsing it and expanding
//! backtick-quoted password commands happen outside the library; the
//! library receives the finished values.
use vstd::prelude::*;

verus! {

pub struct ImapConfig {
    pub host: String,
    pub port: u16,
    pub user: String,
    pub pass: String,
    pub folders: Vec<String>,
    pub sent_folder: Option<String>,
}

pub struct SmtpConfig {
    pub host: String,
    pub port: u16,
    pub user: String,
    pub pass: String,
}

pub struct SenderConfig {
    pub from: String,
    pub name: Option<String>,
}

pub struct Config {
    pub imap: ImapConfig,
    pub smtp: SmtpConfig,
    pub sender: SenderConfig,
}

impl SenderConfig {
    /// The sender as it appears on outgoing mail: `Name <address>` when a
    /// display name is set, the bare address otherwise.
    pub fn formatted_from(&self) -> (r: String)
        ensures
            r@ == match self.name {
                Some(n) => n@ + " <"@ + self.from@ + ">"@,
                None => self.from@,
            },
    {
        match &self.name {
            Some(name) => {
                let mut r = name.clone();
                r.append(" <");
                r.append(self.from.as_str());
                r.append(">");
                r
            },
            None => self.from.clone(),
        }
    }
}

} // verus!
