//! Parsing and management of ZHT configuration files.
//!
//! There are two file formats:
//! - `zht.conf`: Key-value pairs for ZHT parameters (protocol, port, message size, etc.)
//! - `neighbor.conf`: Space-delimited host-port pairs defining cluster membership

use crate::conf_entry::{entry_of_line, ConfEntry};
use crate::constants::{
    CONF_HTDATA_PATH, CONF_INSTANT_SWAP, CONF_MAX_ZHT, CONF_MIGSLP_TIME, CONF_MSG_MAXSIZE,
    CONF_NUM_REPLICAS, CONF_PORT, CONF_PROTOCOL, CONF_REPLICATION_TYPE, CONF_SCCB_POLL_INTERVAL,
    CONF_ZHT_CAPACITY, MSG_DEFAULT_SIZE, SCCB_POLL_DEFAULT_INTERVAL,
};
use crate::error::{ErrorView, ZhtError, ZhtResult};
use crate::hash_util::{hash_bytes, law_route_in_range, route, HashUtil};
use crate::host_entity::{copy_hosts, host_views, HostEntity};
use crate::number::{decimal, decimal_of, ParseText};
use crate::table::Table;
use crate::text::{
    after_word, chars_of, first_word, is_space, join4, law_trim_strips_white_space,
    law_words_of_line, lemma_comment, lemma_trim_is_trimmed, lemma_word, lines_of, same_text,
    substring_of, text_lines, trim, trim_bounds, two_words, views,
};
use vstd::prelude::*;
use vstd::utf8::encode_utf8;

verus! {

/// What was found at the path of a configuration file.
#[derive(Debug)]
pub enum FileContents {
    /// There is no such file.
    Missing,
    /// The file could not be read, for the given reason.
    Unreadable(String),
    /// The text of the file.
    Text(String),
}

// ── ZHT Configuration ────────────────────────────────────────────────

/// The parameters that lines set, a later line taking the place of an earlier
/// one.
pub open spec fn parameters_of(lines: Seq<Seq<char>>) -> Map<Seq<char>, Seq<char>>
    decreases lines.len(),
{
    if lines.len() == 0 {
        Map::empty()
    } else {
        let before = parameters_of(lines.drop_last());
        match entry_of_line(lines.last()) {
            Some((name, value)) => before.insert(name, value),
            None => before,
        }
    }
}

/// The value of a parameter that is set and can be read, or the default.
pub open spec fn parameter_or<T: ParseText>(
    parameters: Map<Seq<char>, Seq<char>>,
    name: Seq<char>,
    default: T::V,
) -> T::V {
    if parameters.contains_key(name) {
        match T::parsed(parameters[name]) {
            Some(v) => v,
            None => default,
        }
    } else {
        default
    }
}

/// The text of a parameter that is set, or the default.
pub open spec fn text_or(
    parameters: Map<Seq<char>, Seq<char>>,
    name: Seq<char>,
    default: Seq<char>,
) -> Seq<char> {
    if parameters.contains_key(name) {
        parameters[name]
    } else {
        default
    }
}

/// Parsed ZHT configuration from `zht.conf`.
///
/// Contains all parameters needed to configure a ZHT server or client.
pub struct ZhtConfig {
    parameters: Table<String>,
    /// Path to the zht.conf file.
    pub zht_conf_path: String,
}

impl View for ZhtConfig {
    type V = Map<Seq<char>, Seq<char>>;

    closed spec fn view(&self) -> Map<Seq<char>, Seq<char>> {
        self.parameters@.map_values(|s: String| s@)
    }
}

impl Clone for ZhtConfig {
    fn clone(&self) -> (r: ZhtConfig)
        ensures
            self.wf() ==> r.wf() && r@ == self@,
            r.conf_path() == self.conf_path(),
    {
        ZhtConfig { parameters: self.parameters.clone(), zht_conf_path: self.zht_conf_path.clone() }
    }
}

impl ZhtConfig {
    /// The parameters are well-formed.
    pub closed spec fn wf(&self) -> bool {
        self.parameters.wf()
    }

    /// The path of the zht.conf file.
    pub closed spec fn conf_path(&self) -> Seq<char> {
        self.zht_conf_path@
    }

    /// Load configuration from the contents of a `zht.conf` file.
    pub fn load(path: &str, file: FileContents) -> (r: ZhtResult<ZhtConfig>)
        ensures
            match file {
                FileContents::Missing => r matches Err(e) && e@ == (ErrorView::ConfigNotFound {
                    path: path@,
                }),
                FileContents::Unreadable(reason) => r matches Err(e) && e@ == (
                ErrorView::ConfigParseError { path: path@, reason: reason@ }),
                FileContents::Text(text) => {
                    &&& r matches Ok(config)
                    &&& config.wf()
                    &&& config@ == parameters_of(lines_of(text@))
                    &&& config.conf_path() == path@
                },
            },
    {
        let content = match file {
            FileContents::Missing => {
                return Err(ZhtError::ConfigNotFound { path: path.to_owned() });
            },
            FileContents::Unreadable(reason) => {
                return Err(ZhtError::ConfigParseError { path: path.to_owned(), reason });
            },
            FileContents::Text(text) => text,
        };
        let lines = text_lines(&content);
        let mut config = ZhtConfig { parameters: Table::new(), zht_conf_path: path.to_owned() };
        let ghost all = views(lines@);
        let mut i: usize = 0;
        assert(all.take(0) =~= Seq::empty());
        assert(config@ =~= Map::<Seq<char>, Seq<char>>::empty());
        while i < lines.len()
            invariant
                i <= lines@.len(),
                all == views(lines@),
                config.wf(),
                config.zht_conf_path@ == path@,
                config@ == parameters_of(all.take(i as int)),
            decreases lines@.len() - i,
        {
            assert(all.take(i + 1).drop_last() =~= all.take(i as int));
            assert(all[i as int] == lines@[i as int]@);
            let ghost before = config@;
            match ConfEntry::from_line(&lines[i]) {
                Some(entry) => {
                    config.parameters.insert(entry.name.clone(), entry.value.clone());
                    assert(config@ =~= before.insert(entry@.0, entry@.1));
                },
                None => {},
            }
            i += 1;
        }
        assert(all.take(i as int) =~= all);
        Ok(config)
    }

    /// Get a parameter value by name.
    pub fn get(&self, key: &str) -> (r: Option<&str>)
        requires
            self.wf(),
        ensures
            r is Some <==> self@.contains_key(key@),
            r matches Some(v) ==> v@ == self@[key@],
    {
        match self.parameters.get(key) {
            Some(s) => Some(s.as_str()),
            None => None,
        }
    }

    /// Get a parameter value, or return the default.
    pub fn get_or(&self, key: &str, default: &str) -> (r: String)
        requires
            self.wf(),
        ensures
            r@ == text_or(self@, key@, default@),
    {
        match self.get(key) {
            Some(v) => v.to_owned(),
            None => default.to_owned(),
        }
    }

    /// Get a parameter as a parsed type, or return default.
    pub fn get_parsed<T: ParseText>(&self, key: &str, default: T) -> (r: T)
        requires
            self.wf(),
        ensures
            r@ == parameter_or::<T>(self@, key@, default@),
    {
        match self.get(key) {
            Some(v) => match T::parse_text(v) {
                Some(parsed) => parsed,
                None => default,
            },
            None => default,
        }
    }

    /// The transport protocol (TCP, UDP, or MPI).
    pub fn protocol(&self) -> (r: &str)
        requires
            self.wf(),
        ensures
            r@ == text_or(self@, CONF_PROTOCOL@, "TCP"@),
    {
        match self.get(CONF_PROTOCOL) {
            Some(v) => v,
            None => "TCP",
        }
    }

    /// The server listening port.
    pub fn port(&self) -> (r: u16)
        requires
            self.wf(),
        ensures
            r == parameter_or::<u16>(self@, CONF_PORT@, 50000u16),
    {
        self.get_parsed(CONF_PORT, 50000u16)
    }

    /// Maximum message size in bytes.
    pub fn msg_maxsize(&self) -> (r: usize)
        requires
            self.wf(),
        ensures
            r == parameter_or::<usize>(self@, CONF_MSG_MAXSIZE@, MSG_DEFAULT_SIZE),
    {
        self.get_parsed(CONF_MSG_MAXSIZE, MSG_DEFAULT_SIZE)
    }

    /// State change callback poll interval in milliseconds.
    pub fn sccb_poll_interval(&self) -> (r: u64)
        requires
            self.wf(),
        ensures
            r == parameter_or::<u64>(self@, CONF_SCCB_POLL_INTERVAL@, SCCB_POLL_DEFAULT_INTERVAL),
    {
        self.get_parsed(CONF_SCCB_POLL_INTERVAL, SCCB_POLL_DEFAULT_INTERVAL)
    }

    /// Whether to instantly swap in-memory data to the NoVoHT DB file.
    pub fn instant_swap(&self) -> (r: bool)
        requires
            self.wf(),
        ensures
            r == (parameter_or::<i32>(self@, CONF_INSTANT_SWAP@, 0i32) == 1),
    {
        self.get_parsed(CONF_INSTANT_SWAP, 0i32) == 1
    }

    /// Maximum number of ZHT instances.
    pub fn max_zht(&self) -> (r: u32)
        requires
            self.wf(),
        ensures
            r == parameter_or::<u32>(self@, CONF_MAX_ZHT@, 512u32),
    {
        self.get_parsed(CONF_MAX_ZHT, 512u32)
    }

    /// Number of replicas.
    pub fn num_replicas(&self) -> (r: u32)
        requires
            self.wf(),
        ensures
            r == parameter_or::<u32>(self@, CONF_NUM_REPLICAS@, 0u32),
    {
        self.get_parsed(CONF_NUM_REPLICAS, 0u32)
    }

    /// Replication type (1 = client-side).
    pub fn replication_type(&self) -> (r: u32)
        requires
            self.wf(),
        ensures
            r == parameter_or::<u32>(self@, CONF_REPLICATION_TYPE@, 0u32),
    {
        self.get_parsed(CONF_REPLICATION_TYPE, 0u32)
    }

    /// ZHT capacity.
    pub fn zht_capacity(&self) -> (r: u32)
        requires
            self.wf(),
        ensures
            r == parameter_or::<u32>(self@, CONF_ZHT_CAPACITY@, 4u32),
    {
        self.get_parsed(CONF_ZHT_CAPACITY, 4u32)
    }

    /// HTData path.
    pub fn htdata_path(&self) -> (r: String)
        requires
            self.wf(),
        ensures
            r@ == text_or(self@, CONF_HTDATA_PATH@, "data/"@),
    {
        self.get_or(CONF_HTDATA_PATH, "data/")
    }

    /// Migration sleep time in microseconds.
    pub fn migslp_time(&self) -> (r: u64)
        requires
            self.wf(),
        ensures
            r == parameter_or::<u64>(self@, CONF_MIGSLP_TIME@, 1_000_000u64),
    {
        self.get_parsed(CONF_MIGSLP_TIME, 1_000_000u64)
    }
}

// ── Neighbor Configuration ───────────────────────────────────────────

/// What a line of `neighbor.conf` says.
pub enum NeighborLine {
    /// Nothing: the line is empty or a comment.
    Nothing,
    /// A node.
    Node(Seq<char>, u16),
    /// A host whose port cannot be read.
    BadPort(Seq<char>),
    /// A host without a port.
    NoPort,
}

/// What a line of `neighbor.conf` says: the first word is the host, the second
/// one the port; further words are ignored.
pub open spec fn neighbor_line(line: Seq<char>) -> NeighborLine {
    let t = trim(line);
    let host = first_word(t);
    let port = first_word(after_word(t));
    if t.len() == 0 || t[0] == '#' {
        NeighborLine::Nothing
    } else if port.len() == 0 {
        NeighborLine::NoPort
    } else {
        match u16::parsed(port) {
            Some(p) => NeighborLine::Node(host, p),
            None => NeighborLine::BadPort(port),
        }
    }
}

/// The error for a line whose port cannot be read or is missing.
pub open spec fn port_error(problem: Seq<char>, path: Seq<char>, line_number: nat) -> ErrorView {
    ErrorView::InvalidConfigValue {
        param: "PORT"@,
        reason: problem + " in "@ + path + " line "@ + decimal(line_number),
    }
}

/// The nodes that lines define, in order, or the error of the first line that
/// is wrong. Lines are numbered from one.
pub open spec fn neighbors_of(lines: Seq<Seq<char>>, path: Seq<char>) -> Result<
    Seq<(Seq<char>, u16)>,
    ErrorView,
>
    decreases lines.len(),
{
    if lines.len() == 0 {
        Ok(Seq::empty())
    } else {
        match neighbors_of(lines.drop_last(), path) {
            Err(e) => Err(e),
            Ok(nodes) => match neighbor_line(lines.last()) {
                NeighborLine::Nothing => Ok(nodes),
                NeighborLine::Node(host, port) => Ok(nodes.push((host, port))),
                NeighborLine::BadPort(port) => Err(
                    port_error("invalid port '"@ + port + "'"@, path, lines.len()),
                ),
                NeighborLine::NoPort => Err(port_error("missing port"@, path, lines.len())),
            },
        }
    }
}

/// What a line of `neighbor.conf` says, as a value.
enum ParsedLine {
    Nothing,
    Node(HostEntity),
    BadPort(String),
    NoPort,
}

fn parse_neighbor(line: &str) -> (r: ParsedLine)
    ensures
        match r {
            ParsedLine::Nothing => neighbor_line(line@) is Nothing,
            ParsedLine::Node(node) => neighbor_line(line@) == NeighborLine::Node(
                node@.0,
                node@.1,
            ),
            ParsedLine::BadPort(port) => neighbor_line(line@) == NeighborLine::BadPort(port@),
            ParsedLine::NoPort => neighbor_line(line@) is NoPort,
        },
{
    let v = chars_of(line);
    assert(v@.subrange(0, v@.len() as int) =~= v@);
    let (a, b) = trim_bounds(&v, 0, v.len());
    if a == b || v[a] == '#' {
        return ParsedLine::Nothing;
    }
    let t = chars_of(&substring_of(&v, a, b));
    let (host, port) = two_words(&t);
    if port.as_str().is_empty() {
        return ParsedLine::NoPort;
    }
    match u16::parse_text(&port) {
        Some(number) => ParsedLine::Node(HostEntity { host, port: number }),
        None => ParsedLine::BadPort(port),
    }
}

fn port_problem(problem: &str, path: &str, line_number: u64) -> (r: ZhtError)
    ensures
        r@ == port_error(problem@, path@, line_number as nat),
{
    let mut reason = join4(problem, " in ", path, " line ");
    reason.push_str(&decimal_of(line_number));
    ZhtError::InvalidConfigValue { param: "PORT".to_owned(), reason }
}

proof fn lemma_neighbors_error(lines: Seq<Seq<char>>, n: int, path: Seq<char>)
    requires
        0 <= n <= lines.len(),
        neighbors_of(lines.take(n), path) is Err,
    ensures
        neighbors_of(lines, path) == neighbors_of(lines.take(n), path),
    decreases lines.len() - n,
{
    if n < lines.len() {
        assert(lines.take(n + 1).drop_last() =~= lines.take(n));
        lemma_neighbors_error(lines, n + 1, path);
    } else {
        assert(lines.take(n) =~= lines);
    }
}

/// Parsed neighbor configuration from `neighbor.conf`.
///
/// Each line in `neighbor.conf` is a space-delimited `HOST PORT` pair
/// defining a node in the ZHT cluster.
#[derive(Debug)]
pub struct NeighborConfig {
    /// Ordered list of neighbor nodes.
    pub neighbors: Vec<HostEntity>,
    /// Path to the neighbor.conf file.
    pub neighbor_conf_path: String,
}

impl View for NeighborConfig {
    type V = Seq<(Seq<char>, u16)>;

    open spec fn view(&self) -> Seq<(Seq<char>, u16)> {
        host_views(self.neighbors@)
    }
}

impl Clone for NeighborConfig {
    fn clone(&self) -> (r: NeighborConfig)
        ensures
            r@ == self@,
            r.neighbors@ == self.neighbors@,
            r.neighbor_conf_path == self.neighbor_conf_path,
    {
        NeighborConfig {
            neighbors: copy_hosts(&self.neighbors),
            neighbor_conf_path: self.neighbor_conf_path.clone(),
        }
    }
}

impl NeighborConfig {
    /// Load neighbor configuration from the contents of a `neighbor.conf` file.
    pub fn load(path: &str, file: FileContents) -> (r: ZhtResult<NeighborConfig>)
        ensures
            match file {
                FileContents::Missing => r matches Err(e) && e@ == (ErrorView::ConfigNotFound {
                    path: path@,
                }),
                FileContents::Unreadable(reason) => r matches Err(e) && e@ == (
                ErrorView::ConfigParseError { path: path@, reason: reason@ }),
                FileContents::Text(text) => match neighbors_of(lines_of(text@), path@) {
                    Ok(nodes) => {
                        &&& r matches Ok(config)
                        &&& config@ == nodes
                        &&& config.neighbor_conf_path@ == path@
                    },
                    Err(error) => r matches Err(e) && e@ == error,
                },
            },
            file matches FileContents::Text(text) ==> ((forall|i: int|
                0 <= i < lines_of(text@).len() ==> !(neighbor_line(
                    #[trigger] lines_of(text@)[i],
                ) is BadPort) && !(neighbor_line(lines_of(text@)[i]) is NoPort)) ==> {
                let named = lines_of(text@).filter(|line: Seq<char>| neighbor_line(line) is Node);
                &&& r matches Ok(config)
                &&& config.neighbors@.len() == named.len()
                &&& forall|i: int|
                    0 <= i < named.len() ==> neighbor_line(#[trigger] named[i])
                        == NeighborLine::Node(
                        config.neighbors@[i].host@,
                        config.neighbors@[i].port,
                    )
            }),
    {
        let content = match file {
            FileContents::Missing => {
                return Err(ZhtError::ConfigNotFound { path: path.to_owned() });
            },
            FileContents::Unreadable(reason) => {
                return Err(ZhtError::ConfigParseError { path: path.to_owned(), reason });
            },
            FileContents::Text(text) => text,
        };
        proof {
            let all = lines_of(content@);
            if forall|i: int|
                0 <= i < all.len() ==> !(neighbor_line(#[trigger] all[i]) is BadPort)
                    && !(neighbor_line(all[i]) is NoPort) {
                law_each_node_line_gives_a_node(all, path@);
            }
        }
        let lines = text_lines(&content);
        let mut neighbors: Vec<HostEntity> = Vec::new();
        let ghost all = views(lines@);
        let mut i: usize = 0;
        assert(all.take(0) =~= Seq::empty());
        assert(host_views(neighbors@) =~= Seq::empty());
        while i < lines.len()
            invariant
                i <= lines@.len(),
                all == views(lines@),
                all == lines_of(content@),
                neighbors_of(all.take(i as int), path@) == Ok::<_, ErrorView>(
                    host_views(neighbors@),
                ),
                file matches FileContents::Text(text) && text@ == content@,
            decreases lines@.len() - i,
        {
            assert(all.take(i + 1).drop_last() =~= all.take(i as int));
            assert(all[i as int] == lines@[i as int]@);
            let line_number: u64 = i as u64 + 1;
            match parse_neighbor(&lines[i]) {
                ParsedLine::Nothing => {},
                ParsedLine::Node(node) => {
                    assert(host_views(neighbors@.push(node)) =~= host_views(neighbors@).push(
                        node@,
                    ));
                    neighbors.push(node);
                },
                ParsedLine::BadPort(port) => {
                    proof {
                        lemma_neighbors_error(all, i + 1, path@);
                    }
                    let mut problem: String = "invalid port '".to_owned();
                    problem.push_str(&port);
                    problem.push_str("'");
                    return Err(port_problem(&problem, path, line_number));
                },
                ParsedLine::NoPort => {
                    proof {
                        lemma_neighbors_error(all, i + 1, path@);
                    }
                    return Err(port_problem("missing port", path, line_number));
                },
            }
            i += 1;
        }
        assert(all.take(i as int) =~= all);
        Ok(NeighborConfig { neighbors, neighbor_conf_path: path.to_owned() })
    }

    /// Number of neighbor nodes.
    pub fn node_count(&self) -> (r: usize)
        ensures
            r == self@.len(),
    {
        self.neighbors.len()
    }

    /// Get the node at a given index.
    pub fn get(&self, index: usize) -> (r: Option<&HostEntity>)
        ensures
            r is Some <==> index < self@.len(),
            r matches Some(node) ==> node@ == self@[index as int],
    {
        if index < self.neighbors.len() {
            Some(&self.neighbors[index])
        } else {
            None
        }
    }

    /// Find the node index for a given host and port: the first one that
    /// matches.
    pub fn find_index(&self, host: &str, port: u16) -> (r: Option<usize>)
        ensures
            match r {
                Some(i) => i < self@.len() && self@[i as int] == (host@, port) && forall|j: int|
                    0 <= j < i ==> self@[j] != (host@, port),
                None => !self@.contains((host@, port)),
            },
    {
        let mut i: usize = 0;
        while i < self.neighbors.len()
            invariant
                i <= self.neighbors@.len(),
                forall|j: int| 0 <= j < i ==> self@[j] != (host@, port),
            decreases self.neighbors@.len() - i,
        {
            let node = &self.neighbors[i];
            assert(self@[i as int] == node@);
            if node.port == port && same_text(&node.host, host) {
                return Some(i);
            }
            i += 1;
        }
        None
    }
}

// ── Unified Configuration ────────────────────────────────────────────

/// Combined configuration holding both ZHT parameters and neighbor list.
///
/// This is the primary configuration object passed to server and client
/// initialization.
pub struct AppConfig {
    /// ZHT parameters (from zht.conf).
    pub zht: ZhtConfig,
    /// Neighbor nodes (from neighbor.conf).
    pub neighbors: NeighborConfig,
}

impl Clone for AppConfig {
    fn clone(&self) -> (r: AppConfig)
        ensures
            self.zht.wf() ==> r.zht.wf() && r.zht@ == self.zht@,
            r.zht.conf_path() == self.zht.conf_path(),
            r.neighbors@ == self.neighbors@,
            r.neighbors.neighbors@ == self.neighbors.neighbors@,
            r.neighbors.neighbor_conf_path == self.neighbors.neighbor_conf_path,
    {
        AppConfig { zht: self.zht.clone(), neighbors: self.neighbors.clone() }
    }
}

impl AppConfig {
    /// Load both configuration files, the ZHT parameters first.
    pub fn load(
        zht_conf: &str,
        zht_file: FileContents,
        neighbor_conf: &str,
        neighbor_file: FileContents,
    ) -> (r: ZhtResult<AppConfig>)
        ensures
            match zht_file {
                FileContents::Missing => r matches Err(e) && e@ == (ErrorView::ConfigNotFound {
                    path: zht_conf@,
                }),
                FileContents::Unreadable(reason) => r matches Err(e) && e@ == (
                ErrorView::ConfigParseError { path: zht_conf@, reason: reason@ }),
                FileContents::Text(parameters) => match neighbor_file {
                    FileContents::Missing => r matches Err(e) && e@ == (ErrorView::ConfigNotFound {
                        path: neighbor_conf@,
                    }),
                    FileContents::Unreadable(reason) => r matches Err(e) && e@ == (
                    ErrorView::ConfigParseError { path: neighbor_conf@, reason: reason@ }),
                    FileContents::Text(nodes) => match neighbors_of(
                        lines_of(nodes@),
                        neighbor_conf@,
                    ) {
                        Ok(neighbors) => {
                            &&& r matches Ok(config)
                            &&& config.zht.wf()
                            &&& config.zht@ == parameters_of(lines_of(parameters@))
                            &&& config.zht.conf_path() == zht_conf@
                            &&& config.neighbors@ == neighbors
                            &&& config.neighbors.neighbor_conf_path@ == neighbor_conf@
                        },
                        Err(error) => r matches Err(e) && e@ == error,
                    },
                },
            },
    {
        let zht = match ZhtConfig::load(zht_conf, zht_file) {
            Ok(config) => config,
            Err(e) => {
                return Err(e);
            },
        };
        match NeighborConfig::load(neighbor_conf, neighbor_file) {
            Ok(neighbors) => Ok(AppConfig { zht, neighbors }),
            Err(e) => Err(e),
        }
    }

    /// Get a ZHT parameter by name.
    pub fn get(&self, key: &str) -> (r: Option<&str>)
        requires
            self.zht.wf(),
        ensures
            r is Some <==> self.zht@.contains_key(key@),
            r matches Some(v) ==> v@ == self.zht@[key@],
    {
        self.zht.get(key)
    }

    /// Total number of neighbor nodes.
    pub fn node_count(&self) -> (r: usize)
        ensures
            r == self.neighbors@.len(),
    {
        self.neighbors.node_count()
    }

    /// Resolve the target host entity for a given key using zero-hop routing.
    ///
    /// Computes `hash(key) % num_nodes` to directly determine which
    /// server node should handle the request.
    pub fn resolve_node(&self, key: &str) -> (r: ZhtResult<&HostEntity>)
        ensures
            self.neighbors@.len() == 0 ==> (r matches Err(e) && e@ == ErrorView::NoDestinationNode(
                key@,
            )),
            self.neighbors@.len() > 0 ==> (r matches Ok(node) && node@ == self.neighbors@[route(
                key@,
                self.neighbors@.len(),
            )]),
            self.neighbors.neighbors@.len() > 0 ==> (r matches Ok(node) && *node
                == self.neighbors.neighbors@[hash_bytes(encode_utf8(key@))
                % self.neighbors.neighbors@.len() as int]),
    {
        let node_count: usize = self.node_count();
        if node_count == 0 {
            return Err(ZhtError::NoDestinationNode(key.to_owned()));
        }
        proof {
            law_route_in_range(key@, node_count as nat);
        }
        let hash_code: u64 = HashUtil::gen_hash_str(key);
        let index: usize = (hash_code % node_count as u64) as usize;
        Ok(&self.neighbors.neighbors[index])
    }
}

/// Every node that a `neighbor.conf` defines has a host, which holds no white
/// space.
pub proof fn law_neighbor_hosts(line: Seq<char>, host: Seq<char>, port: u16)
    requires
        neighbor_line(line) == NeighborLine::Node(host, port),
    ensures
        host.len() > 0,
        forall|i: int| 0 <= i < host.len() ==> !is_space(#[trigger] host[i]),
{
    let t = trim(line);
    lemma_trim_is_trimmed(line);
    lemma_word(t);
}

/// A later setting of a parameter takes the place of an earlier one, and other
/// parameters stay.
pub proof fn law_last_setting_wins(
    lines: Seq<Seq<char>>,
    line: Seq<char>,
    name: Seq<char>,
    value: Seq<char>,
    other: Seq<char>,
)
    requires
        entry_of_line(line) == Some((name, value)),
        other != name,
    ensures
        parameters_of(lines.push(line)).contains_key(name),
        parameters_of(lines.push(line))[name] == value,
        parameters_of(lines.push(line)).contains_key(other) == parameters_of(lines).contains_key(
            other,
        ),
        parameters_of(lines).contains_key(other) ==> parameters_of(lines.push(line))[other]
            == parameters_of(lines)[other],
{
    assert(lines.push(line).drop_last() =~= lines);
}

/// What a line of `neighbor.conf` says, whatever white space stands around its
/// words and whatever follows the second one: a host and a port make a node; a
/// port that is no number is refused, and so is a host alone. Blank lines say
/// nothing.
pub proof fn law_neighbor_line_words(
    pre: Seq<char>,
    host: Seq<char>,
    gap: Seq<char>,
    port: Seq<char>,
    rest: Seq<char>,
)
    requires
        forall|i: int| 0 <= i < pre.len() ==> is_space(#[trigger] pre[i]),
        forall|i: int| 0 <= i < host.len() ==> !is_space(#[trigger] host[i]),
        forall|i: int| 0 <= i < gap.len() ==> is_space(#[trigger] gap[i]),
        forall|i: int| 0 <= i < port.len() ==> !is_space(#[trigger] port[i]),
        rest.len() > 0 ==> is_space(rest[0]),
        host.len() > 0,
        host[0] != '#',
    ensures
        gap.len() > 0 && port.len() > 0 ==> neighbor_line(pre + host + gap + port + rest) == (
        match u16::parsed(port) {
            Some(p) => NeighborLine::Node(host, p),
            None => NeighborLine::BadPort(port),
        }),
        neighbor_line(pre + host + gap) is NoPort,
        neighbor_line(pre) is Nothing,
{
    law_words_of_line(pre, host, gap, port, rest);
    law_trim_strips_white_space(pre, Seq::empty(), Seq::empty());
    assert(pre + Seq::<char>::empty() + Seq::<char>::empty() =~= pre);
}

/// A line of `neighbor.conf` whose first visible character is `#` says nothing,
/// whatever follows.
pub proof fn law_neighbor_comment(pre: Seq<char>, rest: Seq<char>)
    requires
        forall|i: int| 0 <= i < pre.len() ==> is_space(#[trigger] pre[i]),
    ensures
        neighbor_line(pre + seq!['#'] + rest) is Nothing,
{
    lemma_comment(pre, rest);
}

/// Where no line is wrong, there are as many nodes as lines that name one, and
/// each of them, in order and however often a host or a node comes up, is the
/// host and port of its line.
pub proof fn law_each_node_line_gives_a_node(lines: Seq<Seq<char>>, path: Seq<char>)
    requires
        forall|i: int| 0 <= i < lines.len() ==> !(neighbor_line(#[trigger] lines[i]) is BadPort)
            && !(neighbor_line(lines[i]) is NoPort),
    ensures
        neighbors_of(lines, path) matches Ok(nodes) && {
            let named = lines.filter(|line: Seq<char>| neighbor_line(line) is Node);
            &&& nodes.len() == named.len()
            &&& forall|i: int|
                0 <= i < named.len() ==> neighbor_line(#[trigger] named[i]) == NeighborLine::Node(
                    nodes[i].0,
                    nodes[i].1,
                )
        },
    decreases lines.len(),
{
    reveal(Seq::filter);
    let p = |line: Seq<char>| neighbor_line(line) is Node;
    if lines.len() > 0 {
        let before = lines.drop_last();
        assert forall|i: int| 0 <= i < before.len() implies !(neighbor_line(
            #[trigger] before[i],
        ) is BadPort) && !(neighbor_line(before[i]) is NoPort) by {
            assert(before[i] == lines[i]);
        }
        law_each_node_line_gives_a_node(before, path);
        let last = lines[lines.len() - 1];
        let named = before.filter(p);
        let all = lines.filter(p);
        assert(all == if p(last) { named.push(last) } else { named });
        let nodes = neighbors_of(before, path)->Ok_0;
        let now = neighbors_of(lines, path)->Ok_0;
        assert forall|i: int| 0 <= i < all.len() implies neighbor_line(#[trigger] all[i])
            == NeighborLine::Node(now[i].0, now[i].1) by {
            if i < named.len() {
                assert(all[i] == named[i]);
                assert(now[i] == nodes[i]);
            }
        }
    }
}

/// Files one behind the other give the nodes of the one and then those of the
/// other.
pub proof fn law_nodes_of_joined_lines(a: Seq<Seq<char>>, b: Seq<Seq<char>>, path: Seq<char>)
    requires
        neighbors_of(a, path) is Ok,
        neighbors_of(b, path) is Ok,
    ensures
        neighbors_of(a + b, path) == Ok::<_, ErrorView>(
            neighbors_of(a, path)->Ok_0 + neighbors_of(b, path)->Ok_0,
        ),
    decreases b.len(),
{
    if b.len() == 0 {
        assert(a + b =~= a);
        assert(neighbors_of(a, path)->Ok_0 + neighbors_of(b, path)->Ok_0 =~= neighbors_of(
            a,
            path,
        )->Ok_0);
    } else {
        assert((a + b).drop_last() =~= a + b.drop_last());
        law_nodes_of_joined_lines(a, b.drop_last(), path);
        assert(neighbors_of(a + b, path)->Ok_0 =~= neighbors_of(a, path)->Ok_0 + neighbors_of(
            b,
            path,
        )->Ok_0);
    }
}

/// The first line that is wrong decides: the error names its problem, the file
/// and its number, whatever follows it.
pub proof fn law_first_wrong_line_is_reported(
    before: Seq<Seq<char>>,
    wrong: Seq<char>,
    rest: Seq<Seq<char>>,
    path: Seq<char>,
)
    requires
        forall|i: int| 0 <= i < before.len() ==> !(neighbor_line(#[trigger] before[i]) is BadPort)
            && !(neighbor_line(before[i]) is NoPort),
        neighbor_line(wrong) is BadPort || neighbor_line(wrong) is NoPort,
    ensures
        neighbors_of(before.push(wrong) + rest, path) == Err::<Seq<(Seq<char>, u16)>, _>(
            ErrorView::InvalidConfigValue {
                param: "PORT"@,
                reason: (match neighbor_line(wrong) {
                    NeighborLine::BadPort(port) => "invalid port '"@ + port + "'"@,
                    _ => "missing port"@,
                }) + " in "@ + path + " line "@ + decimal(before.len() + 1),
            },
        ),
{
    law_each_node_line_gives_a_node(before, path);
    let all = before.push(wrong) + rest;
    let n = before.len() + 1;
    assert(all.take(n as int) =~= before.push(wrong));
    assert(before.push(wrong).drop_last() =~= before);
    lemma_neighbors_error(all, n as int, path);
}

/// A line without an entry sets nothing, and without lines nothing is set: a
/// parameter is set exactly where some line sets it, to what the last such line
/// says.
pub proof fn law_parameter_is_its_last_setting(
    before: Seq<Seq<char>>,
    line: Seq<char>,
    rest: Seq<Seq<char>>,
    name: Seq<char>,
    value: Seq<char>,
)
    requires
        forall|i: int|
            0 <= i < rest.len() ==> (match entry_of_line(#[trigger] rest[i]) {
                Some(entry) => entry.0 != name,
                None => true,
            }),
    ensures
        entry_of_line(line) == Some((name, value)) ==> parameters_of(
            before.push(line) + rest,
        ).contains_key(name) && parameters_of(before.push(line) + rest)[name] == value,
        !parameters_of(rest).contains_key(name),
    decreases rest.len(),
{
    if rest.len() == 0 {
        assert(before.push(line) + rest =~= before.push(line));
        assert(before.push(line).drop_last() =~= before);
    } else {
        let shorter = rest.drop_last();
        assert forall|i: int| 0 <= i < shorter.len() implies (match entry_of_line(
            #[trigger] shorter[i],
        ) {
            Some(entry) => entry.0 != name,
            None => true,
        }) by {
            assert(shorter[i] == rest[i]);
        }
        law_parameter_is_its_last_setting(before, line, shorter, name, value);
        assert((before.push(line) + rest).drop_last() =~= before.push(line) + shorter);
        let last = rest[rest.len() - 1];
        assert(match entry_of_line(last) {
            Some(entry) => entry.0 != name,
            None => true,
        });
    }
}

/// A parameter that is set and can be read gives its value, and any other one
/// the default; a text parameter gives its text.
pub proof fn law_parameter_or_default<T: ParseText>(
    parameters: Map<Seq<char>, Seq<char>>,
    name: Seq<char>,
    text: Seq<char>,
    default: T::V,
    fallback: Seq<char>,
)
    ensures
        T::parsed(text) is Some ==> parameter_or::<T>(parameters.insert(name, text), name, default)
            == T::parsed(text)->0,
        T::parsed(text) is None ==> parameter_or::<T>(parameters.insert(name, text), name, default)
            == default,
        parameter_or::<T>(parameters.remove(name), name, default) == default,
        text_or(parameters.insert(name, text), name, fallback) == text,
        text_or(parameters.remove(name), name, fallback) == fallback,
{
}

} // verus!
