use vstd::prelude::*;

use crate::cli::Args;

verus! {

broadcast use vstd::string::group_string_axioms;

/// The configuration of the program: the IMAP servers and the program's own
/// settings.
#[derive(Debug)]
pub struct Config {
    pub imap: Vec<IMAPConfig>,
    pub postar: PostarConfig,
}

/// The program's own settings.
#[derive(Debug, Clone)]
pub struct PostarConfig {
    /// Seconds between two polls of a server without IDLE.
    pub polling_delay: u32,
}

impl Default for PostarConfig {
    fn default() -> (c: PostarConfig)
        ensures
            c.polling_delay == 3,
    {
        PostarConfig { polling_delay: 3 }
    }
}

/// How to reach one IMAP server.
#[derive(Debug)]
pub struct IMAPConfig {
    pub name: String,
    pub server: String,
    pub port: u16,
    pub self_signed_cert: bool,
    pub username: String,
    pub password: String,
    pub default: bool,
    pub incoming_folder: String,
}

/// The folder watched for new messages when the configuration names none.
pub fn default_incoming_folder() -> (s: String)
    ensures
        s@ == "INBOX"@,
{
    "INBOX".to_owned()
}

/// Whether a server's certificate may be self-signed, when the
/// configuration does not say.
pub fn default_self_signed_cert() -> (b: bool)
    ensures
        !b,
{
    false
}

/// Whether a server is the default one, when the configuration does not
/// say.
pub fn default_default() -> (b: bool)
    ensures
        !b,
{
    false
}

impl Config {
    /// The configuration with the command-line arguments applied: a polling
    /// delay given on the command line replaces the configured one.
    pub fn merge_with_args(self, args: &Args) -> (c: Config)
        ensures
            c.imap == self.imap,
            c.postar.polling_delay == match args.polling_delay {
                Some(d) => d,
                None => self.postar.polling_delay,
            },
    {
        let mut c = self;
        c.postar.polling_delay = match args.polling_delay {
            Some(d) => d,
            None => c.postar.polling_delay,
        };
        c
    }
}

/// At most one of the servers is marked as the default.
pub open spec fn single_default(imap: Seq<IMAPConfig>) -> bool {
    forall|i: int, j: int|
        0 <= i < j < imap.len() ==> !(#[trigger] imap[i].default && #[trigger] imap[j].default)
}

/// Whether at most one of the configured servers is marked as the default,
/// as a valid configuration has it.
pub fn has_single_default(imap: &Vec<IMAPConfig>) -> (b: bool)
    ensures
        b <==> single_default(imap@),
{
    let mut seen: Option<usize> = None;
    let mut i: usize = 0;
    while i < imap.len()
        invariant
            i <= imap@.len(),
            single_default(imap@.take(i as int)),
            match seen {
                Some(k) => k < i && imap@[k as int].default,
                None => forall|j: int| 0 <= j < i ==> !(#[trigger] imap@[j]).default,
            },
        decreases imap@.len() - i,
    {
        if imap[i].default {
            if let Some(k) = seen {
                assert(imap@[k as int].default && imap@[i as int].default);
                return false;
            }
            seen = Some(i);
        }
        assert forall|a: int, b: int|
            0 <= a < b < i + 1 implies !(#[trigger] imap@.take(i + 1)[a].default
            && #[trigger] imap@.take(i + 1)[b].default) by {
            if b < i {
                assert(imap@.take(i + 1)[a] == imap@.take(i as int)[a]);
                assert(imap@.take(i + 1)[b] == imap@.take(i as int)[b]);
            }
        }
        i = i + 1;
    }
    assert(imap@.take(imap@.len() as int) =~= imap@);
    true
}

/// Whether a server configuration is the one asked for: the one of that
/// name when a name is given, else one marked as the default.
pub open spec fn server_chosen(c: IMAPConfig, server: Option<String>) -> bool {
    match server {
        Some(name) => c.name@ == name@,
        None => c.default,
    }
}

/// The server to connect to: the first configured server of the given name,
/// or, without a name, the first one marked as the default; none when there
/// is no such server.
pub fn select_server(imap: &Vec<IMAPConfig>, server: &Option<String>) -> (r: Option<usize>)
    ensures
        match r {
            Some(i) => i < imap@.len() && server_chosen(imap@[i as int], *server) && forall|j: int|
                0 <= j < i ==> !server_chosen(#[trigger] imap@[j], *server),
            None => forall|j: int| 0 <= j < imap@.len() ==> !server_chosen(#[trigger] imap@[j], *server),
        },
{
    let mut i: usize = 0;
    while i < imap.len()
        invariant
            i <= imap@.len(),
            forall|j: int| 0 <= j < i ==> !server_chosen(#[trigger] imap@[j], *server),
        decreases imap@.len() - i,
    {
        let chosen = match server {
            Some(name) => imap[i].name == *name,
            None => imap[i].default,
        };
        if chosen {
            return Some(i);
        }
        i = i + 1;
    }
    None
}

} // verus!
