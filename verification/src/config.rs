//! The configuration: what the environment and the file ask for.
use crate::text::same;
use vstd::prelude::*;

verus! {

/// The cooling time of an account without a deadline: half an hour.
pub const DEFAULT_COOLDOWN_MS: i64 = 1_800_000;

/// Where the system service places the monitor socket.
pub const SYSTEM_MONITOR_SOCKET: &'static str = "/run/underclass/monitor.sock";

/// What the configuration file may say.
#[derive(Debug)]
pub struct FileConfig {
    pub bind: Option<String>,
    pub proxy_key: Option<String>,
    pub ui_token: Option<String>,
    pub codex_cooldown_secs: Option<u64>,
    pub copilot_cooldown_secs: Option<u64>,
    pub copilot_cooldown_ms: Option<u64>,
    pub codex_cooldown_ms: Option<u64>,
    pub auto_codex_resets: Option<bool>,
}

impl Default for FileConfig {
    /// A file that says nothing.
    fn default() -> (r: Self)
        ensures
            r == (FileConfig {
                bind: None,
                proxy_key: None,
                ui_token: None,
                codex_cooldown_secs: None,
                copilot_cooldown_secs: None,
                copilot_cooldown_ms: None,
                codex_cooldown_ms: None,
                auto_codex_resets: None,
            }),
    {
        FileConfig {
            bind: None,
            proxy_key: None,
            ui_token: None,
            codex_cooldown_secs: None,
            copilot_cooldown_secs: None,
            copilot_cooldown_ms: None,
            codex_cooldown_ms: None,
            auto_codex_resets: None,
        }
    }
}

/// What the environment may say. Paths are the bytes that the system gave.
#[derive(Debug)]
pub struct EnvConfig {
    pub home: Option<Vec<u8>>,
    pub config_dir: Option<Vec<u8>>,
    pub data_dir: Option<Vec<u8>>,
    pub bind: Option<String>,
    pub proxy_key: Option<String>,
    pub ui_token: Option<String>,
    pub auto_codex_resets: Option<String>,
}

/// The configuration. Paths are bytes.
#[derive(Debug)]
pub struct Config {
    pub bind: String,
    pub proxy_key: Option<String>,
    pub ui_token: Option<String>,
    pub codex_cooldown_ms: i64,
    pub auto_codex_resets: bool,
    pub copilot_cooldown_ms: i64,
    pub data_dir: Vec<u8>,
    pub config_dir: Vec<u8>,
}

// ---------------------------------------------------------------------------
// Paths
// ---------------------------------------------------------------------------

/// A relative path below a directory.
pub open spec fn below_dir(dir: Seq<u8>, rest: Seq<u8>) -> Seq<u8> {
    if dir.len() == 0 || dir.last() == 47 {
        dir + rest
    } else {
        dir.push(47) + rest
    }
}

fn append(out: &mut Vec<u8>, bytes: &[u8])
    ensures
        final(out)@ == old(out)@ + bytes@,
{
    let ghost start = out@;
    assert(start + bytes@.take(0) =~= start);
    for i in 0..bytes.len()
        invariant
            out@ == start + bytes@.take(i as int),
    {
        out.push(bytes[i]);
        assert(start + bytes@.take(i + 1) =~= (start + bytes@.take(i as int)).push(
            bytes@[i as int],
        ));
    }
    assert(bytes@.take(bytes@.len() as int) =~= bytes@);
}

fn copy_bytes(bytes: &[u8]) -> (r: Vec<u8>)
    ensures
        r@ == bytes@,
{
    let mut out: Vec<u8> = Vec::new();
    append(&mut out, bytes);
    assert(Seq::<u8>::empty() + bytes@ =~= bytes@);
    out
}

/// A relative path below a directory.
pub fn join_path(dir: &[u8], rest: &str) -> (r: Vec<u8>)
    ensures
        r@ == below_dir(dir@, vstd::utf8::encode_utf8(rest@)),
{
    let mut out = copy_bytes(dir);
    if dir.len() > 0 && dir[dir.len() - 1] != 47 {
        out.push(47);
    }
    append(&mut out, rest.as_bytes());
    out
}

/// The home directory; the root where there is none.
pub open spec fn home_of(home: Option<Vec<u8>>) -> Seq<u8> {
    match home {
        Some(h) => h@,
        None => seq![47u8],
    }
}

fn home_dir(home: &Option<Vec<u8>>) -> (r: Vec<u8>)
    ensures
        r@ == home_of(*home),
{
    match home {
        Some(h) => copy_bytes(h.as_slice()),
        None => {
            let mut root: Vec<u8> = Vec::new();
            root.push(47);
            root
        },
    }
}

/// Where data is kept unless asked otherwise.
pub fn default_data_dir(home: &Option<Vec<u8>>) -> (r: Vec<u8>)
    ensures
        r@ == below_dir(home_of(*home), vstd::utf8::encode_utf8(".local/share/underclass"@)),
{
    let home = home_dir(home);
    join_path(home.as_slice(), ".local/share/underclass")
}

/// Where the configuration is kept unless asked otherwise.
pub fn default_config_dir(home: &Option<Vec<u8>>) -> (r: Vec<u8>)
    ensures
        r@ == below_dir(home_of(*home), vstd::utf8::encode_utf8(".config/underclass"@)),
{
    let home = home_dir(home);
    join_path(home.as_slice(), ".config/underclass")
}

/// Where the configuration is kept.
pub open spec fn config_dir_of(env: EnvConfig) -> Seq<u8> {
    match env.config_dir {
        Some(d) => d@,
        None => below_dir(home_of(env.home), vstd::utf8::encode_utf8(".config/underclass"@)),
    }
}

/// Where data is kept.
pub open spec fn data_dir_of(env: EnvConfig) -> Seq<u8> {
    match env.data_dir {
        Some(d) => d@,
        None => below_dir(home_of(env.home), vstd::utf8::encode_utf8(".local/share/underclass"@)),
    }
}

impl EnvConfig {
    /// Where the configuration is kept.
    pub fn config_dir(&self) -> (r: Vec<u8>)
        ensures
            r@ == config_dir_of(*self),
    {
        match &self.config_dir {
            Some(d) => copy_bytes(d.as_slice()),
            None => default_config_dir(&self.home),
        }
    }

    /// Where data is kept.
    pub fn data_dir(&self) -> (r: Vec<u8>)
        ensures
            r@ == data_dir_of(*self),
    {
        match &self.data_dir {
            Some(d) => copy_bytes(d.as_slice()),
            None => default_data_dir(&self.home),
        }
    }

    /// The configuration file.
    pub fn config_path(&self) -> (r: Vec<u8>)
        ensures
            r@ == below_dir(config_dir_of(*self), vstd::utf8::encode_utf8("config.toml"@)),
    {
        let dir = self.config_dir();
        join_path(dir.as_slice(), "config.toml")
    }
}

// ---------------------------------------------------------------------------
// Settings
// ---------------------------------------------------------------------------

/// Seconds that can be told in milliseconds.
pub open spec fn secs_fit(secs: Option<u64>) -> bool {
    secs matches Some(s) ==> s * 1000 <= u64::MAX
}

/// A cooling time: in milliseconds, else in seconds, else the default.
pub open spec fn cooldown_of(ms: Option<u64>, secs: Option<u64>) -> u64 {
    match ms {
        Some(m) => m,
        None => match secs {
            Some(s) => (s * 1000) as u64,
            None => DEFAULT_COOLDOWN_MS as u64,
        },
    }
}

fn cooldown(ms: Option<u64>, secs: Option<u64>) -> (r: i64)
    requires
        secs_fit(secs),
    ensures
        r == cooldown_of(ms, secs) as i64,
{
    let v: u64 = match ms {
        Some(m) => m,
        None => match secs {
            Some(s) => s * 1000,
            None => DEFAULT_COOLDOWN_MS as u64,
        },
    };
    v as i64
}

/// The truth value that a text spells.
pub open spec fn truth_spelled(s: Option<String>) -> Option<bool> {
    match s {
        Some(t) => if t@ == "true"@ {
            Some(true)
        } else if t@ == "false"@ {
            Some(false)
        } else {
            None
        },
        None => None,
    }
}

fn parse_truth(s: &Option<String>) -> (r: Option<bool>)
    ensures
        r == truth_spelled(*s),
{
    match s {
        Some(t) => if same(t.as_str(), "true") {
            Some(true)
        } else if same(t.as_str(), "false") {
            Some(false)
        } else {
            None
        },
        None => None,
    }
}

/// What the environment says, else what the file says.
pub open spec fn first_said(env: Option<String>, file: Option<String>) -> Option<String> {
    if env is Some {
        env
    } else {
        file
    }
}

fn prefer(env: &Option<String>, file: &Option<String>) -> (r: Option<String>)
    ensures
        r == first_said(*env, *file),
{
    match env {
        Some(s) => Some(s.clone()),
        None => file.clone(),
    }
}

impl FileConfig {
    pub open spec fn fits(self) -> bool {
        secs_fit(self.codex_cooldown_secs) && secs_fit(self.copilot_cooldown_secs)
    }

    /// Whether the cooling times can be told in milliseconds.
    pub fn check(&self) -> (r: bool)
        ensures
            r == self.fits(),
    {
        let limit: u64 = 18_446_744_073_709_551;
        let codex = match self.codex_cooldown_secs {
            Some(s) => s <= limit,
            None => true,
        };
        let copilot = match self.copilot_cooldown_secs {
            Some(s) => s <= limit,
            None => true,
        };
        codex && copilot
    }
}

impl Config {
    /// The configuration: the environment first, then the file, then the
    /// defaults.
    pub fn load(env: &EnvConfig, file: &FileConfig) -> (r: Self)
        requires
            file.fits(),
        ensures
            r.bind@ == (match first_said(env.bind, file.bind) {
                Some(s) => s@,
                None => "127.0.0.1:8080"@,
            }),
            r.proxy_key == first_said(env.proxy_key, file.proxy_key),
            r.ui_token == first_said(env.ui_token, file.ui_token),
            r.codex_cooldown_ms == cooldown_of(
                file.codex_cooldown_ms,
                file.codex_cooldown_secs,
            ) as i64,
            r.copilot_cooldown_ms == cooldown_of(
                file.copilot_cooldown_ms,
                file.copilot_cooldown_secs,
            ) as i64,
            r.auto_codex_resets == (match truth_spelled(env.auto_codex_resets) {
                Some(b) => b,
                None => match file.auto_codex_resets {
                    Some(b) => b,
                    None => true,
                },
            }),
            r.data_dir@ == data_dir_of(*env),
            r.config_dir@ == config_dir_of(*env),
    {
        let bind = match prefer(&env.bind, &file.bind) {
            Some(s) => s,
            None => "127.0.0.1:8080".to_owned(),
        };
        let auto_codex_resets = match parse_truth(&env.auto_codex_resets) {
            Some(b) => b,
            None => match file.auto_codex_resets {
                Some(b) => b,
                None => true,
            },
        };
        Config {
            bind,
            proxy_key: prefer(&env.proxy_key, &file.proxy_key),
            ui_token: prefer(&env.ui_token, &file.ui_token),
            codex_cooldown_ms: cooldown(file.codex_cooldown_ms, file.codex_cooldown_secs),
            auto_codex_resets,
            copilot_cooldown_ms: cooldown(file.copilot_cooldown_ms, file.copilot_cooldown_secs),
            data_dir: env.data_dir(),
            config_dir: env.config_dir(),
        }
    }

    /// The database.
    pub fn db_path(&self) -> (r: Vec<u8>)
        ensures
            r@ == below_dir(self.data_dir@, vstd::utf8::encode_utf8("pool.db"@)),
    {
        join_path(self.data_dir.as_slice(), "pool.db")
    }

    /// The monitor socket: where the environment says, unless that is empty,
    /// else beside the database.
    pub fn monitor_socket_path(&self, asked: Option<&[u8]>) -> (r: Vec<u8>)
        ensures
            r@ == (match asked {
                Some(p) if p@.len() > 0 => p@,
                _ => below_dir(self.data_dir@, vstd::utf8::encode_utf8("monitor.sock"@)),
            }),
    {
        if let Some(p) = asked {
            if p.len() > 0 {
                return copy_bytes(p);
            }
        }
        join_path(self.data_dir.as_slice(), "monitor.sock")
    }
}

} // verus!
