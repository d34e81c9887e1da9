//! Layered configuration: defaults, file, environment and command line,
//! merged field by field so that a present value of a higher layer wins.
use vstd::prelude::*;
use crate::reconcile::opt_view;
use crate::text::string_views;

verus! {

/// Settings of the token verification.
pub struct ConfigOptsVerify {
    pub token: Option<String>,
}

/// Regex filters applied when listing zones and records.
pub struct ConfigOptsList {
    pub include_zones: Option<Vec<String>>,
    pub ignore_zones: Option<Vec<String>>,
    pub include_records: Option<Vec<String>>,
    pub ignore_records: Option<Vec<String>>,
}

/// Settings of the inventory commands.
pub struct ConfigOptsInventory {
    pub path: Option<String>,
    pub force_update: Option<bool>,
    pub force_prune: Option<bool>,
    pub watch_interval: Option<u64>,
}

/// A fully built configuration.
pub struct ConfigOpts {
    pub verify: ConfigOptsVerify,
    pub list: ConfigOptsList,
    pub inventory: ConfigOptsInventory,
}

/// One configuration layer, where any section may be absent.
pub struct ConfigBuilder {
    pub verify: Option<ConfigOptsVerify>,
    pub list: Option<ConfigOptsList>,
    pub inventory: Option<ConfigOptsInventory>,
}

/// Raised when the provider must be called and no token is configured.
pub enum AuthError {
    MissingToken,
}

/// The value of every setting in one layer; `None` where the layer omits it.
pub struct Settings {
    pub token: Option<Seq<char>>,
    pub include_zones: Option<Seq<Seq<char>>>,
    pub ignore_zones: Option<Seq<Seq<char>>>,
    pub include_records: Option<Seq<Seq<char>>>,
    pub ignore_records: Option<Seq<Seq<char>>>,
    pub path: Option<Seq<char>>,
    pub force_update: Option<bool>,
    pub force_prune: Option<bool>,
    pub watch_interval: Option<u64>,
}

/// A list of strings as an option of character sequences.
pub open spec fn opt_list_view(o: Option<Vec<String>>) -> Option<Seq<Seq<char>>> {
    match o {
        Some(v) => Some(string_views(v@)),
        None => None,
    }
}

/// The present value of the greater layer, else that of the lesser.
pub open spec fn prefer<T>(greater: Option<T>, lesser: Option<T>) -> Option<T> {
    match greater {
        Some(g) => Some(g),
        None => lesser,
    }
}

/// `greater` laid over `lesser`, setting by setting.
pub open spec fn overlay(lesser: Settings, greater: Settings) -> Settings {
    Settings {
        token: prefer(greater.token, lesser.token),
        include_zones: prefer(greater.include_zones, lesser.include_zones),
        ignore_zones: prefer(greater.ignore_zones, lesser.ignore_zones),
        include_records: prefer(greater.include_records, lesser.include_records),
        ignore_records: prefer(greater.ignore_records, lesser.ignore_records),
        path: prefer(greater.path, lesser.path),
        force_update: prefer(greater.force_update, lesser.force_update),
        force_prune: prefer(greater.force_prune, lesser.force_prune),
        watch_interval: prefer(greater.watch_interval, lesser.watch_interval),
    }
}

/// The settings of each section, absent sections giving no value.
pub open spec fn verify_token_of(v: Option<ConfigOptsVerify>) -> Option<Seq<char>> {
    match v {
        Some(s) => opt_view(s.token),
        None => None,
    }
}

pub open spec fn list_settings(l: Option<ConfigOptsList>) -> (Option<Seq<Seq<char>>>, Option<Seq<Seq<char>>>, Option<Seq<Seq<char>>>, Option<Seq<Seq<char>>>) {
    match l {
        Some(s) => (opt_list_view(s.include_zones), opt_list_view(s.ignore_zones), opt_list_view(s.include_records), opt_list_view(s.ignore_records)),
        None => (None, None, None, None),
    }
}

pub open spec fn inventory_settings(i: Option<ConfigOptsInventory>) -> (Option<Seq<char>>, Option<bool>, Option<bool>, Option<u64>) {
    match i {
        Some(s) => (opt_view(s.path), s.force_update, s.force_prune, s.watch_interval),
        None => (None, None, None, None),
    }
}

impl ConfigBuilder {
    /// The settings this layer gives.
    pub open spec fn settings(&self) -> Settings {
        let l = list_settings(self.list);
        let i = inventory_settings(self.inventory);
        Settings {
            token: verify_token_of(self.verify),
            include_zones: l.0,
            ignore_zones: l.1,
            include_records: l.2,
            ignore_records: l.3,
            path: i.0,
            force_update: i.1,
            force_prune: i.2,
            watch_interval: i.3,
        }
    }
}

impl ConfigOpts {
    /// The settings of a built configuration.
    pub open spec fn settings(&self) -> Settings {
        Settings {
            token: opt_view(self.verify.token),
            include_zones: opt_list_view(self.list.include_zones),
            ignore_zones: opt_list_view(self.list.ignore_zones),
            include_records: opt_list_view(self.list.include_records),
            ignore_records: opt_list_view(self.list.ignore_records),
            path: opt_view(self.inventory.path),
            force_update: self.inventory.force_update,
            force_prune: self.inventory.force_prune,
            watch_interval: self.inventory.watch_interval,
        }
    }

    /// A new, empty configuration layer.
    pub fn builder() -> (r: ConfigBuilder)
        ensures
            r.settings() == ConfigBuilder::empty_settings(),
    {
        ConfigBuilder::new()
    }

    /// The built-in defaults: every zone and record listed, nothing ignored,
    /// no forced corrections, a watch interval of thirty seconds, and the
    /// given inventory path.
    pub fn defaults(inventory_path: String) -> (r: ConfigOpts)
        ensures
            r.settings() == (Settings {
                token: None,
                include_zones: Some(seq![".*"@]),
                ignore_zones: Some(Seq::<Seq<char>>::empty()),
                include_records: Some(seq![".*"@]),
                ignore_records: Some(Seq::<Seq<char>>::empty()),
                path: Some(inventory_path@),
                force_update: Some(false),
                force_prune: Some(false),
                watch_interval: Some(30000),
            }),
    {
        let mut all_zones: Vec<String> = Vec::new();
        all_zones.push(".*".to_owned());
        let mut all_records: Vec<String> = Vec::new();
        all_records.push(".*".to_owned());
        let r = ConfigOpts {
            verify: ConfigOptsVerify { token: None },
            list: ConfigOptsList {
                include_zones: Some(all_zones),
                ignore_zones: Some(Vec::new()),
                include_records: Some(all_records),
                ignore_records: Some(Vec::new()),
            },
            inventory: ConfigOptsInventory {
                path: Some(inventory_path),
                force_update: Some(false),
                force_prune: Some(false),
                watch_interval: Some(30000),
            },
        };
        assert(string_views(r.list.include_zones.unwrap()@) =~= seq![".*"@]);
        assert(string_views(r.list.include_records.unwrap()@) =~= seq![".*"@]);
        assert(string_views(r.list.ignore_zones.unwrap()@) =~= Seq::<Seq<char>>::empty());
        assert(string_views(r.list.ignore_records.unwrap()@) =~= Seq::<Seq<char>>::empty());
        r
    }

    /// The API token, required before any provider call.
    pub fn token(&self) -> (r: Result<&String, AuthError>)
        ensures
            match r {
                Ok(t) => self.verify.token == Some(*t),
                Err(_) => self.verify.token is None,
            },
    {
        match &self.verify.token {
            Some(t) => Ok(t),
            None => Err(AuthError::MissingToken),
        }
    }
}

impl ConfigBuilder {
    /// A layer that sets nothing.
    pub open spec fn empty_settings() -> Settings {
        Settings {
            token: None,
            include_zones: None,
            ignore_zones: None,
            include_records: None,
            ignore_records: None,
            path: None,
            force_update: None,
            force_prune: None,
            watch_interval: None,
        }
    }

    /// A new, empty configuration layer.
    pub fn new() -> (r: ConfigBuilder)
        ensures
            r.settings() == ConfigBuilder::empty_settings(),
    {
        ConfigBuilder { verify: None, list: None, inventory: None }
    }

    /// The layer that sets exactly what a built configuration holds.
    pub fn from_opts(opts: ConfigOpts) -> (r: ConfigBuilder)
        ensures
            r.settings() == opts.settings(),
    {
        ConfigBuilder { verify: Some(opts.verify), list: Some(opts.list), inventory: Some(opts.inventory) }
    }

    /// Lays `greater` over this layer: each setting that `greater` gives
    /// replaces this layer's; the others are kept.
    pub fn merge(self, greater: ConfigBuilder) -> (r: ConfigBuilder)
        ensures
            r.settings() == overlay(self.settings(), greater.settings()),
    {
        let verify = match (self.verify, greater.verify) {
            (None, None) => None,
            (Some(l), None) => Some(l),
            (None, Some(g)) => Some(g),
            (Some(l), Some(g)) => Some(ConfigOptsVerify { token: or_keep(g.token, l.token) }),
        };
        let list = match (self.list, greater.list) {
            (None, None) => None,
            (Some(l), None) => Some(l),
            (None, Some(g)) => Some(g),
            (Some(l), Some(g)) => Some(ConfigOptsList {
                include_zones: or_keep(g.include_zones, l.include_zones),
                ignore_zones: or_keep(g.ignore_zones, l.ignore_zones),
                include_records: or_keep(g.include_records, l.include_records),
                ignore_records: or_keep(g.ignore_records, l.ignore_records),
            }),
        };
        let inventory = match (self.inventory, greater.inventory) {
            (None, None) => None,
            (Some(l), None) => Some(l),
            (None, Some(g)) => Some(g),
            (Some(l), Some(g)) => Some(ConfigOptsInventory {
                path: or_keep(g.path, l.path),
                force_update: or_keep(g.force_update, l.force_update),
                force_prune: or_keep(g.force_prune, l.force_prune),
                watch_interval: or_keep(g.watch_interval, l.watch_interval),
            }),
        };
        ConfigBuilder { verify, list, inventory }
    }

    /// Replaces the verify section.
    pub fn verify(self, verify: Option<ConfigOptsVerify>) -> (r: ConfigBuilder)
        ensures
            r.settings() == (Settings { token: verify_token_of(verify), ..self.settings() }),
    {
        ConfigBuilder { verify, list: self.list, inventory: self.inventory }
    }

    /// Sets the API token.
    pub fn verify_token(self, token: Option<String>) -> (r: ConfigBuilder)
        ensures
            r.settings() == (Settings { token: opt_view(token), ..self.settings() }),
    {
        ConfigBuilder { verify: Some(ConfigOptsVerify { token }), list: self.list, inventory: self.inventory }
    }

    /// Replaces the list section.
    pub fn list(self, list: Option<ConfigOptsList>) -> (r: ConfigBuilder)
        ensures
            r.settings() == (Settings {
                include_zones: list_settings(list).0,
                ignore_zones: list_settings(list).1,
                include_records: list_settings(list).2,
                ignore_records: list_settings(list).3,
                ..self.settings()
            }),
    {
        ConfigBuilder { verify: self.verify, list, inventory: self.inventory }
    }

    /// The list section, or an empty one.
    fn list_section(list: Option<ConfigOptsList>) -> (r: ConfigOptsList)
        ensures
            list_settings(Some(r)) == list_settings(list),
    {
        match list {
            Some(l) => l,
            None => ConfigOptsList { include_zones: None, ignore_zones: None, include_records: None, ignore_records: None },
        }
    }

    /// The inventory section, or an empty one.
    fn inventory_section(inventory: Option<ConfigOptsInventory>) -> (r: ConfigOptsInventory)
        ensures
            inventory_settings(Some(r)) == inventory_settings(inventory),
    {
        match inventory {
            Some(i) => i,
            None => ConfigOptsInventory { path: None, force_update: None, force_prune: None, watch_interval: None },
        }
    }

    /// Sets the zone patterns to include.
    pub fn list_include_zones(self, patterns: Option<Vec<String>>) -> (r: ConfigBuilder)
        ensures
            r.settings() == (Settings { include_zones: opt_list_view(patterns), ..self.settings() }),
    {
        let mut l = ConfigBuilder::list_section(self.list);
        l.include_zones = patterns;
        ConfigBuilder { verify: self.verify, list: Some(l), inventory: self.inventory }
    }

    /// Sets the zone patterns to ignore.
    pub fn list_ignore_zones(self, patterns: Option<Vec<String>>) -> (r: ConfigBuilder)
        ensures
            r.settings() == (Settings { ignore_zones: opt_list_view(patterns), ..self.settings() }),
    {
        let mut l = ConfigBuilder::list_section(self.list);
        l.ignore_zones = patterns;
        ConfigBuilder { verify: self.verify, list: Some(l), inventory: self.inventory }
    }

    /// Sets the record patterns to include.
    pub fn list_include_records(self, patterns: Option<Vec<String>>) -> (r: ConfigBuilder)
        ensures
            r.settings() == (Settings { include_records: opt_list_view(patterns), ..self.settings() }),
    {
        let mut l = ConfigBuilder::list_section(self.list);
        l.include_records = patterns;
        ConfigBuilder { verify: self.verify, list: Some(l), inventory: self.inventory }
    }

    /// Sets the record patterns to ignore.
    pub fn list_ignore_records(self, patterns: Option<Vec<String>>) -> (r: ConfigBuilder)
        ensures
            r.settings() == (Settings { ignore_records: opt_list_view(patterns), ..self.settings() }),
    {
        let mut l = ConfigBuilder::list_section(self.list);
        l.ignore_records = patterns;
        ConfigBuilder { verify: self.verify, list: Some(l), inventory: self.inventory }
    }

    /// Replaces the inventory section.
    pub fn inventory(self, inventory: Option<ConfigOptsInventory>) -> (r: ConfigBuilder)
        ensures
            r.settings() == (Settings {
                path: inventory_settings(inventory).0,
                force_update: inventory_settings(inventory).1,
                force_prune: inventory_settings(inventory).2,
                watch_interval: inventory_settings(inventory).3,
                ..self.settings()
            }),
    {
        ConfigBuilder { verify: self.verify, list: self.list, inventory }
    }

    /// Sets the inventory path.
    pub fn inventory_path(self, path: Option<String>) -> (r: ConfigBuilder)
        ensures
            r.settings() == (Settings { path: opt_view(path), ..self.settings() }),
    {
        let mut i = ConfigBuilder::inventory_section(self.inventory);
        i.path = path;
        ConfigBuilder { verify: self.verify, list: self.list, inventory: Some(i) }
    }

    /// Sets whether outdated records are updated without asking.
    pub fn inventory_force_update(self, force: Option<bool>) -> (r: ConfigBuilder)
        ensures
            r.settings() == (Settings { force_update: force, ..self.settings() }),
    {
        let mut i = ConfigBuilder::inventory_section(self.inventory);
        i.force_update = force;
        ConfigBuilder { verify: self.verify, list: self.list, inventory: Some(i) }
    }

    /// Sets whether invalid pairs are pruned without asking.
    pub fn inventory_force_prune(self, force: Option<bool>) -> (r: ConfigBuilder)
        ensures
            r.settings() == (Settings { force_prune: force, ..self.settings() }),
    {
        let mut i = ConfigBuilder::inventory_section(self.inventory);
        i.force_prune = force;
        ConfigBuilder { verify: self.verify, list: self.list, inventory: Some(i) }
    }

    /// Sets the watch interval, in milliseconds.
    pub fn inventory_watch_interval(self, interval: Option<u64>) -> (r: ConfigBuilder)
        ensures
            r.settings() == (Settings { watch_interval: interval, ..self.settings() }),
    {
        let mut i = ConfigBuilder::inventory_section(self.inventory);
        i.watch_interval = interval;
        ConfigBuilder { verify: self.verify, list: self.list, inventory: Some(i) }
    }

    /// Lays a built configuration over this layer.
    pub fn merge_opts(self, greater: ConfigOpts) -> (r: ConfigBuilder)
        ensures
            r.settings() == overlay(self.settings(), greater.settings()),
    {
        self.merge(ConfigBuilder::from_opts(greater))
    }

    /// Builds the configuration this layer describes; omitted settings are
    /// absent.
    pub fn build(&self) -> (r: ConfigOpts)
        ensures
            r.settings() == self.settings(),
    {
        let token = match &self.verify {
            Some(v) => v.token.clone(),
            None => None,
        };
        let list = match &self.list {
            Some(l) => ConfigOptsList {
                include_zones: l.include_zones.clone(),
                ignore_zones: l.ignore_zones.clone(),
                include_records: l.include_records.clone(),
                ignore_records: l.ignore_records.clone(),
            },
            None => ConfigOptsList { include_zones: None, ignore_zones: None, include_records: None, ignore_records: None },
        };
        let inventory = match &self.inventory {
            Some(i) => ConfigOptsInventory {
                path: i.path.clone(),
                force_update: i.force_update,
                force_prune: i.force_prune,
                watch_interval: i.watch_interval,
            },
            None => ConfigOptsInventory { path: None, force_update: None, force_prune: None, watch_interval: None },
        };
        ConfigOpts { verify: ConfigOptsVerify { token }, list, inventory }
    }
}

/// The greater value when present, else the lesser.
fn or_keep<T>(greater: Option<T>, lesser: Option<T>) -> (r: Option<T>)
    ensures
        r == prefer(greater, lesser),
{
    match greater {
        Some(g) => Some(g),
        None => lesser,
    }
}

/// The value of the highest layer that gives one.
pub open spec fn highest<T>(defaults: Option<T>, file: Option<T>, env: Option<T>, cli: Option<T>) -> Option<T> {
    if cli is Some {
        cli
    } else if env is Some {
        env
    } else if file is Some {
        file
    } else {
        defaults
    }
}

/// Merge precedence: after resolving the layers default < file <
/// environment < command line, every setting holds the value of the highest
/// layer that gives it, so a layer that omits a setting never affects it.
pub proof fn lemma_merge_precedence(defaults: Settings, file: Settings, env: Settings, cli: Settings)
    ensures
        ({
            let r = overlay(overlay(overlay(defaults, file), env), cli);
            &&& r.token == highest(defaults.token, file.token, env.token, cli.token)
            &&& r.include_zones == highest(defaults.include_zones, file.include_zones, env.include_zones, cli.include_zones)
            &&& r.ignore_zones == highest(defaults.ignore_zones, file.ignore_zones, env.ignore_zones, cli.ignore_zones)
            &&& r.include_records == highest(defaults.include_records, file.include_records, env.include_records, cli.include_records)
            &&& r.ignore_records == highest(defaults.ignore_records, file.ignore_records, env.ignore_records, cli.ignore_records)
            &&& r.path == highest(defaults.path, file.path, env.path, cli.path)
            &&& r.force_update == highest(defaults.force_update, file.force_update, env.force_update, cli.force_update)
            &&& r.force_prune == highest(defaults.force_prune, file.force_prune, env.force_prune, cli.force_prune)
            &&& r.watch_interval == highest(defaults.watch_interval, file.watch_interval, env.watch_interval, cli.watch_interval)
        }),
{
}

/// Resolves the four layers, from lowest to highest precedence.
pub fn resolve(defaults: ConfigOpts, file: ConfigBuilder, env: ConfigBuilder, cli: ConfigBuilder) -> (r: ConfigOpts)
    ensures
        r.settings() == overlay(overlay(overlay(defaults.settings(), file.settings()), env.settings()), cli.settings()),
{
    ConfigBuilder::from_opts(defaults).merge(file).merge(env).merge(cli).build()
}

} // verus!
