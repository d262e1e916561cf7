//! The service configuration: credentials for the fetcher, the site
//! variant, the listen port, the output and store locations, and the
//! concurrency cap. Argument and environment parsing happens outside the
//! library, which receives the plain values.

use vstd::prelude::*;
use vstd::string::*;

use crate::text::str_eq;

verus! {

/// The configured values the service runs with.
pub struct Config {
    pub ipb_member_id: String,
    pub ipb_pass_hash: String,
    pub igneous: Option<String>,
    pub site: String,
    pub port: u16,
    pub archive_output: String,
    pub library_root: String,
    pub tag_db_root: String,
    pub limit: usize,
}

impl Config {
    /// The host name of the variant site; a configured site equal to it
    /// selects the variant identity.
    pub open spec fn variant_host() -> Seq<char> {
        "exhentai.org"@
    }

    /// The member-id credential.
    pub fn ipb_member_id(&self) -> (r: &str)
        ensures
            r@ == self.ipb_member_id@,
    {
        self.ipb_member_id.as_str()
    }

    /// The pass-hash credential.
    pub fn ipb_pass_hash(&self) -> (r: &str)
        ensures
            r@ == self.ipb_pass_hash@,
    {
        self.ipb_pass_hash.as_str()
    }

    /// The optional extra credential.
    pub fn igneous(&self) -> (r: Option<&str>)
        ensures
            (match (r, self.igneous) {
                (Some(a), Some(b)) => a@ == b@,
                (None, None) => true,
                _ => false,
            }),
    {
        match &self.igneous {
            Some(s) => Some(s.as_str()),
            None => None,
        }
    }

    /// The configured site host.
    pub fn site(&self) -> (r: &str)
        ensures
            r@ == self.site@,
    {
        self.site.as_str()
    }

    /// Whether the configured site is the variant identity.
    pub fn is_exhentai(&self) -> (r: bool)
        ensures
            r == (self.site@ == Config::variant_host()),
    {
        str_eq(self.site.as_str(), "exhentai.org")
    }

    /// The listen port.
    pub fn port(&self) -> (r: u16)
        ensures
            r == self.port,
    {
        self.port
    }

    /// The archive output root.
    pub fn archive_output(&self) -> (r: &str)
        ensures
            r@ == self.archive_output@,
    {
        self.archive_output.as_str()
    }

    /// The catalog library root.
    pub fn library_root(&self) -> (r: &str)
        ensures
            r@ == self.library_root@,
    {
        self.library_root.as_str()
    }

    /// The directory the translation store lives under.
    pub fn tag_db_path(&self) -> (r: &str)
        ensures
            r@ == self.tag_db_root@,
    {
        self.tag_db_root.as_str()
    }

    /// The concurrency cap.
    pub fn limit(&self) -> (r: usize)
        ensures
            r == self.limit,
    {
        self.limit
    }
}

} // verus!
