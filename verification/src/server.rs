//! The server's command line and the settings a deployment must satisfy before it starts.
use crate::text::{
    is_blank, parse_unsigned, spec_is_blank, spec_parse_unsigned, spec_split_on, spec_trim,
    split_on, str_eq, trim, is_float_text, spec_is_float_text,
};
use crate::state::ExecutionIdentity;
use vstd::prelude::*;

verus! {

/// The options of the server's command line.
#[derive(Debug, Clone, Copy, PartialEq, Eq, Structural)]
pub enum ServerOption {
    Listen,
    ExecutionListen,
    StateDir,
    ObjectStoreDir,
    Journal,
    NodeId,
    AdvertiseEndpoint,
    DataPlaneOnly,
    ExecutionIdentityFile,
    ClusterTokenFile,
    ApiTokenFile,
    ProcessPartitions,
    KeyGroups,
    LeaseSeconds,
    LogShards,
}

pub open spec fn spec_server_option(word: Seq<char>) -> Option<ServerOption> {
    if word == "--listen"@ {
        Some(ServerOption::Listen)
    } else if word == "--execution-listen"@ {
        Some(ServerOption::ExecutionListen)
    } else if word == "--state-dir"@ {
        Some(ServerOption::StateDir)
    } else if word == "--object-store-dir"@ {
        Some(ServerOption::ObjectStoreDir)
    } else if word == "--journal"@ {
        Some(ServerOption::Journal)
    } else if word == "--node-id"@ {
        Some(ServerOption::NodeId)
    } else if word == "--advertise-endpoint"@ {
        Some(ServerOption::AdvertiseEndpoint)
    } else if word == "--data-plane-only"@ {
        Some(ServerOption::DataPlaneOnly)
    } else if word == "--execution-identity-file"@ {
        Some(ServerOption::ExecutionIdentityFile)
    } else if word == "--cluster-token-file"@ {
        Some(ServerOption::ClusterTokenFile)
    } else if word == "--api-token-file"@ {
        Some(ServerOption::ApiTokenFile)
    } else if word == "--process-partitions"@ {
        Some(ServerOption::ProcessPartitions)
    } else if word == "--key-groups"@ {
        Some(ServerOption::KeyGroups)
    } else if word == "--lease-seconds"@ {
        Some(ServerOption::LeaseSeconds)
    } else if word == "--log-shards"@ {
        Some(ServerOption::LogShards)
    } else {
        None
    }
}

/// The option a command-line word names, if any.
pub fn server_option(word: &str) -> (option: Option<ServerOption>)
    ensures
        option == spec_server_option(word@),
{
    if str_eq(word, "--listen") {
        Some(ServerOption::Listen)
    } else if str_eq(word, "--execution-listen") {
        Some(ServerOption::ExecutionListen)
    } else if str_eq(word, "--state-dir") {
        Some(ServerOption::StateDir)
    } else if str_eq(word, "--object-store-dir") {
        Some(ServerOption::ObjectStoreDir)
    } else if str_eq(word, "--journal") {
        Some(ServerOption::Journal)
    } else if str_eq(word, "--node-id") {
        Some(ServerOption::NodeId)
    } else if str_eq(word, "--advertise-endpoint") {
        Some(ServerOption::AdvertiseEndpoint)
    } else if str_eq(word, "--data-plane-only") {
        Some(ServerOption::DataPlaneOnly)
    } else if str_eq(word, "--execution-identity-file") {
        Some(ServerOption::ExecutionIdentityFile)
    } else if str_eq(word, "--cluster-token-file") {
        Some(ServerOption::ClusterTokenFile)
    } else if str_eq(word, "--api-token-file") {
        Some(ServerOption::ApiTokenFile)
    } else if str_eq(word, "--process-partitions") {
        Some(ServerOption::ProcessPartitions)
    } else if str_eq(word, "--key-groups") {
        Some(ServerOption::KeyGroups)
    } else if str_eq(word, "--lease-seconds") {
        Some(ServerOption::LeaseSeconds)
    } else if str_eq(word, "--log-shards") {
        Some(ServerOption::LogShards)
    } else {
        None
    }
}

/// The server's settings as its command line gives them. The lease length stays text:
/// the caller reads it as a number of seconds.
pub struct ServerArguments {
    pub listen: String,
    pub execution_listen: Option<String>,
    pub state_dir: String,
    pub object_dir: String,
    pub journal: Option<String>,
    pub node_id: String,
    pub endpoint: String,
    pub control_plane: bool,
    pub owned_partitions: Option<Vec<usize>>,
    pub execution_identity_file: Option<String>,
    pub cluster_token_file: Option<String>,
    pub api_token_file: Option<String>,
    pub key_groups: u32,
    pub lease_seconds: Option<String>,
    pub log_shards: usize,
}

/// `ServerArguments` as plain values.
pub struct ServerArgumentsView {
    pub listen: Seq<char>,
    pub execution_listen: Option<Seq<char>>,
    pub state_dir: Seq<char>,
    pub object_dir: Seq<char>,
    pub journal: Option<Seq<char>>,
    pub node_id: Seq<char>,
    pub endpoint: Seq<char>,
    pub control_plane: bool,
    pub owned_partitions: Option<Seq<usize>>,
    pub execution_identity_file: Option<Seq<char>>,
    pub cluster_token_file: Option<Seq<char>>,
    pub api_token_file: Option<Seq<char>>,
    pub key_groups: u32,
    pub lease_seconds: Option<Seq<char>>,
    pub log_shards: usize,
}

pub open spec fn text_opt(o: Option<String>) -> Option<Seq<char>> {
    match o {
        Some(s) => Some(s@),
        None => None,
    }
}

impl View for ServerArguments {
    type V = ServerArgumentsView;

    open spec fn view(&self) -> ServerArgumentsView {
        ServerArgumentsView {
            listen: self.listen@,
            execution_listen: text_opt(self.execution_listen),
            state_dir: self.state_dir@,
            object_dir: self.object_dir@,
            journal: text_opt(self.journal),
            node_id: self.node_id@,
            endpoint: self.endpoint@,
            control_plane: self.control_plane,
            owned_partitions: match self.owned_partitions {
                Some(p) => Some(p@),
                None => None,
            },
            execution_identity_file: text_opt(self.execution_identity_file),
            cluster_token_file: text_opt(self.cluster_token_file),
            api_token_file: text_opt(self.api_token_file),
            key_groups: self.key_groups,
            lease_seconds: text_opt(self.lease_seconds),
            log_shards: self.log_shards,
        }
    }
}

/// Why the server refused its command line or its deployment settings.
#[derive(Debug)]
pub enum ServerArgumentError {
    /// The option, which takes a value, came last.
    MissingValue(String),
    /// A `--process-partitions` entry is not an unsigned integer.
    InvalidProcessPartition,
    /// `--key-groups` is not an unsigned 32-bit integer.
    KeyGroupsNotInteger,
    /// `--log-shards` is not an unsigned integer.
    LogShardsNotInteger,
    /// `--lease-seconds` is not a number.
    LeaseSecondsNotNumeric,
    /// A word that names no option.
    UnknownArgument(String),
    /// The node id is blank, key groups or lease length are not positive, or log shards
    /// are outside 2..=256.
    InvalidSettings,
    /// The advertised endpoint is not an absolute URL.
    InvalidEndpoint,
    /// An owned process partition is 0 or not below the log shard count; the value is the
    /// largest partition allowed.
    PartitionOutOfRange(usize),
}

/// `ServerArgumentError` as plain values.
pub enum ServerArgumentErrorView {
    MissingValue(Seq<char>),
    InvalidProcessPartition,
    KeyGroupsNotInteger,
    LogShardsNotInteger,
    LeaseSecondsNotNumeric,
    UnknownArgument(Seq<char>),
    InvalidSettings,
    InvalidEndpoint,
    PartitionOutOfRange(usize),
}

impl View for ServerArgumentError {
    type V = ServerArgumentErrorView;

    open spec fn view(&self) -> ServerArgumentErrorView {
        match self {
            ServerArgumentError::MissingValue(o) => ServerArgumentErrorView::MissingValue(o@),
            ServerArgumentError::InvalidProcessPartition => ServerArgumentErrorView::InvalidProcessPartition,
            ServerArgumentError::KeyGroupsNotInteger => ServerArgumentErrorView::KeyGroupsNotInteger,
            ServerArgumentError::LogShardsNotInteger => ServerArgumentErrorView::LogShardsNotInteger,
            ServerArgumentError::LeaseSecondsNotNumeric => ServerArgumentErrorView::LeaseSecondsNotNumeric,
            ServerArgumentError::UnknownArgument(w) => ServerArgumentErrorView::UnknownArgument(w@),
            ServerArgumentError::InvalidSettings => ServerArgumentErrorView::InvalidSettings,
            ServerArgumentError::InvalidEndpoint => ServerArgumentErrorView::InvalidEndpoint,
            ServerArgumentError::PartitionOutOfRange(p) => ServerArgumentErrorView::PartitionOutOfRange(*p),
        }
    }
}

/// Each part read as an unsigned integer no larger than `max`, or `None` if one is not.
pub open spec fn spec_parse_list(parts: Seq<Seq<char>>, max: nat) -> Option<Seq<nat>>
    decreases parts.len(),
{
    if parts.len() == 0 {
        Some(Seq::empty())
    } else {
        match (spec_parse_unsigned(parts[0], max), spec_parse_list(parts.drop_first(), max)) {
            (Some(v), Some(rest)) => Some(seq![v] + rest),
            _ => None,
        }
    }
}

/// The partitions of a comma-separated `--process-partitions` value.
pub open spec fn spec_partition_list(value: Seq<char>) -> Option<Seq<usize>> {
    match spec_parse_list(spec_split_on(value, ','), usize::MAX as nat) {
        Some(ps) => Some(ps.map_values(|p: nat| p as usize)),
        None => None,
    }
}

/// Reads a comma-separated list of process partitions.
pub fn parse_partition_list(value: &str) -> (partitions: Option<Vec<usize>>)
    ensures
        match spec_partition_list(value@) {
            Some(ps) => partitions matches Some(v) && v@ == ps,
            None => partitions is None,
        },
{
    let parts = split_on(value, ',');
    let ghost words = parts@.map_values(|p: String| p@);
    let mut out: Vec<usize> = Vec::new();
    let mut i: usize = 0;
    assert(words.skip(0) =~= words);
    while i < parts.len()
        invariant
            words == parts@.map_values(|p: String| p@),
            words == spec_split_on(value@, ','),
            i <= parts@.len(),
            out@.len() == i,
            spec_parse_list(words, usize::MAX as nat) == match spec_parse_list(
                words.skip(i as int),
                usize::MAX as nat,
            ) {
                Some(rest) => Some(out@.map_values(|p: usize| p as nat) + rest),
                None => None::<Seq<nat>>,
            },
        decreases parts.len() - i,
    {
        let ghost rest = words.skip(i as int);
        assert(rest[0] == parts@[i as int]@);
        assert(rest.drop_first() =~= words.skip(i + 1));
        match parse_unsigned(parts[i].as_str(), usize::MAX as u64) {
            None => {
                return None;
            },
            Some(v) => {
                let ghost before = out@;
                out.push(v as usize);
                assert(out@.map_values(|p: usize| p as nat) =~= before.map_values(
                    |p: usize| p as nat,
                ) + seq![v as nat]);
            },
        }
        i = i + 1;
    }
    proof {
        assert(words.skip(i as int) =~= Seq::<Seq<char>>::empty());
        assert(out@.map_values(|p: usize| p as nat) + Seq::<nat>::empty() =~= out@.map_values(
            |p: usize| p as nat,
        ));
        assert(out@.map_values(|p: usize| p as nat).map_values(|p: nat| p as usize) =~= out@);
    }
    Some(out)
}

/// The settings after one option and its value.
pub open spec fn spec_apply_option(
    s: ServerArgumentsView,
    option: ServerOption,
    value: Seq<char>,
) -> Result<ServerArgumentsView, ServerArgumentErrorView> {
    match option {
        ServerOption::Listen => Ok(ServerArgumentsView { listen: value, ..s }),
        ServerOption::ExecutionListen => Ok(
            ServerArgumentsView { execution_listen: Some(value), ..s },
        ),
        ServerOption::StateDir => Ok(ServerArgumentsView { state_dir: value, ..s }),
        ServerOption::ObjectStoreDir => Ok(ServerArgumentsView { object_dir: value, ..s }),
        ServerOption::Journal => Ok(ServerArgumentsView { journal: Some(value), ..s }),
        ServerOption::NodeId => Ok(ServerArgumentsView { node_id: value, ..s }),
        ServerOption::AdvertiseEndpoint => Ok(ServerArgumentsView { endpoint: value, ..s }),
        ServerOption::DataPlaneOnly => Ok(ServerArgumentsView { control_plane: false, ..s }),
        ServerOption::ExecutionIdentityFile => Ok(
            ServerArgumentsView { execution_identity_file: Some(value), ..s },
        ),
        ServerOption::ClusterTokenFile => Ok(
            ServerArgumentsView { cluster_token_file: Some(value), ..s },
        ),
        ServerOption::ApiTokenFile => Ok(ServerArgumentsView { api_token_file: Some(value), ..s }),
        ServerOption::ProcessPartitions => match spec_partition_list(value) {
            Some(ps) => Ok(ServerArgumentsView { owned_partitions: Some(ps), ..s }),
            None => Err(ServerArgumentErrorView::InvalidProcessPartition),
        },
        ServerOption::KeyGroups => match spec_parse_unsigned(value, u32::MAX as nat) {
            Some(v) => Ok(ServerArgumentsView { key_groups: v as u32, ..s }),
            None => Err(ServerArgumentErrorView::KeyGroupsNotInteger),
        },
        ServerOption::LeaseSeconds => if spec_is_float_text(value) {
            Ok(ServerArgumentsView { lease_seconds: Some(value), ..s })
        } else {
            Err(ServerArgumentErrorView::LeaseSecondsNotNumeric)
        },
        ServerOption::LogShards => match spec_parse_unsigned(value, usize::MAX as nat) {
            Some(v) => Ok(ServerArgumentsView { log_shards: v as usize, ..s }),
            None => Err(ServerArgumentErrorView::LogShardsNotInteger),
        },
    }
}

/// The settings after the remaining words of the command line.
pub open spec fn spec_scan_server(
    words: Seq<Seq<char>>,
    s: ServerArgumentsView,
) -> Result<ServerArgumentsView, ServerArgumentErrorView>
    decreases words.len(),
{
    if words.len() == 0 {
        Ok(s)
    } else {
        match spec_server_option(words[0]) {
            None => Err(ServerArgumentErrorView::UnknownArgument(words[0])),
            Some(ServerOption::DataPlaneOnly) => spec_scan_server(
                words.drop_first(),
                ServerArgumentsView { control_plane: false, ..s },
            ),
            Some(option) => if words.len() < 2 {
                Err(ServerArgumentErrorView::MissingValue(words[0]))
            } else {
                match spec_apply_option(s, option, words[1]) {
                    Err(e) => Err(e),
                    Ok(next) => spec_scan_server(words.subrange(2, words.len() as int), next),
                }
            },
        }
    }
}

/// The settings of a server started without options, with the given number of log shards.
pub open spec fn spec_default_arguments(log_shards: usize) -> ServerArgumentsView {
    ServerArgumentsView {
        listen: "127.0.0.1:7233"@,
        execution_listen: None,
        state_dir: "highwater-rust-state"@,
        object_dir: "highwater-rust-objects"@,
        journal: None,
        node_id: "local"@,
        endpoint: Seq::empty(),
        control_plane: true,
        owned_partitions: None,
        execution_identity_file: None,
        cluster_token_file: None,
        api_token_file: None,
        key_groups: 128,
        lease_seconds: None,
        log_shards,
    }
}

fn apply_option(s: &mut ServerArguments, option: ServerOption, value: String) -> (r: Result<
    (),
    ServerArgumentError,
>)
    ensures
        match spec_apply_option(old(s)@, option, value@) {
            Ok(next) => r is Ok && final(s)@ == next,
            Err(e) => r matches Err(x) && x@ == e,
        },
{
    match option {
        ServerOption::Listen => s.listen = value,
        ServerOption::ExecutionListen => s.execution_listen = Some(value),
        ServerOption::StateDir => s.state_dir = value,
        ServerOption::ObjectStoreDir => s.object_dir = value,
        ServerOption::Journal => s.journal = Some(value),
        ServerOption::NodeId => s.node_id = value,
        ServerOption::AdvertiseEndpoint => s.endpoint = value,
        ServerOption::DataPlaneOnly => s.control_plane = false,
        ServerOption::ExecutionIdentityFile => s.execution_identity_file = Some(value),
        ServerOption::ClusterTokenFile => s.cluster_token_file = Some(value),
        ServerOption::ApiTokenFile => s.api_token_file = Some(value),
        ServerOption::ProcessPartitions => match parse_partition_list(value.as_str()) {
            Some(ps) => s.owned_partitions = Some(ps),
            None => {
                return Err(ServerArgumentError::InvalidProcessPartition);
            },
        },
        ServerOption::KeyGroups => match parse_unsigned(value.as_str(), u32::MAX as u64) {
            Some(v) => s.key_groups = v as u32,
            None => {
                return Err(ServerArgumentError::KeyGroupsNotInteger);
            },
        },
        ServerOption::LeaseSeconds => if is_float_text(value.as_str()) {
            s.lease_seconds = Some(value)
        } else {
            return Err(ServerArgumentError::LeaseSecondsNotNumeric);
        },
        ServerOption::LogShards => match parse_unsigned(value.as_str(), usize::MAX as u64) {
            Some(v) => s.log_shards = v as usize,
            None => {
                return Err(ServerArgumentError::LogShardsNotInteger);
            },
        },
    }
    Ok(())
}

pub open spec fn word_texts(words: Seq<String>) -> Seq<Seq<char>> {
    words.map_values(|w: String| w@)
}

/// Reads the server's command line, starting from the defaults with `default_log_shards`
/// log shards.
pub fn parse_server_arguments(words: Vec<String>, default_log_shards: usize) -> (r: Result<
    ServerArguments,
    ServerArgumentError,
>)
    ensures
        match spec_scan_server(word_texts(words@), spec_default_arguments(default_log_shards)) {
            Ok(v) => r matches Ok(a) && a@ == v,
            Err(e) => r matches Err(x) && x@ == e,
        },
{
    let mut s = ServerArguments {
        listen: "127.0.0.1:7233".to_owned(),
        execution_listen: None,
        state_dir: "highwater-rust-state".to_owned(),
        object_dir: "highwater-rust-objects".to_owned(),
        journal: None,
        node_id: "local".to_owned(),
        endpoint: String::new(),
        control_plane: true,
        owned_partitions: None,
        execution_identity_file: None,
        cluster_token_file: None,
        api_token_file: None,
        key_groups: 128,
        lease_seconds: None,
        log_shards: default_log_shards,
    };
    let ghost all = word_texts(words@);
    assert(s@ == spec_default_arguments(default_log_shards));
    assert(all.skip(0) =~= all);
    let mut i: usize = 0;
    while i < words.len()
        invariant
            all == word_texts(words@),
            i <= words@.len(),
            spec_scan_server(all, spec_default_arguments(default_log_shards)) == spec_scan_server(
                all.skip(i as int),
                s@,
            ),
        decreases words.len() - i,
    {
        let ghost rest = all.skip(i as int);
        assert(rest[0] == words@[i as int]@);
        match server_option(words[i].as_str()) {
            None => {
                return Err(ServerArgumentError::UnknownArgument(words[i].clone()));
            },
            Some(ServerOption::DataPlaneOnly) => {
                assert(rest.drop_first() =~= all.skip(i + 1));
                s.control_plane = false;
                i = i + 1;
            },
            Some(option) => {
                if i + 1 >= words.len() {
                    return Err(ServerArgumentError::MissingValue(words[i].clone()));
                }
                assert(rest[1] == words@[i + 1]@);
                assert(rest.subrange(2, rest.len() as int) =~= all.skip(i + 2));
                match apply_option(&mut s, option, words[i + 1].clone()) {
                    Ok(()) => {},
                    Err(e) => {
                        return Err(e);
                    },
                }
                i = i + 2;
            },
        }
    }
    assert(all.skip(i as int) =~= Seq::<Seq<char>>::empty());
    Ok(s)
}

/// Whether `url::Url::parse` accepts the text, which it does only for an absolute URL.
pub uninterp spec fn url_parses(text: Seq<char>) -> bool;

/// Calls `url::Url::parse` and reports whether it succeeded; the answer is named
/// `url_parses` and depends on the text alone.
#[verifier::external_body]
fn parses_as_url(text: &str) -> (ok: bool)
    ensures
        ok == url_parses(text@),
{
    url::Url::parse(text).is_ok()
}

/// The endpoint the server advertises: the one given, or else `http://` and the address
/// that serves workers.
pub open spec fn spec_advertised_endpoint(s: ServerArgumentsView) -> Seq<char> {
    if s.endpoint.len() == 0 {
        "http://"@ + match s.execution_listen {
            Some(l) => l,
            None => s.listen,
        }
    } else {
        s.endpoint
    }
}

/// Some owned partition is shard 0, which serves no partition, or is not a log shard.
pub open spec fn partition_out_of_range(ps: Seq<usize>, log_shards: usize) -> bool {
    exists|i: int| 0 <= i < ps.len() && (#[trigger] ps[i] == 0 || ps[i] >= log_shards)
}

/// The settings the server starts with, or the first rule they break. `lease_positive`
/// says whether the lease length, read as seconds, is above zero.
pub open spec fn spec_check_server(
    s: ServerArgumentsView,
    lease_positive: bool,
) -> Result<ServerArgumentsView, ServerArgumentErrorView> {
    if spec_is_blank(s.node_id) || s.key_groups == 0 || !lease_positive || !(2 <= s.log_shards
        <= 256) {
        Err(ServerArgumentErrorView::InvalidSettings)
    } else if !url_parses(spec_advertised_endpoint(s)) {
        Err(ServerArgumentErrorView::InvalidEndpoint)
    } else if s.owned_partitions matches Some(ps) && partition_out_of_range(ps, s.log_shards) {
        Err(ServerArgumentErrorView::PartitionOutOfRange((s.log_shards - 1) as usize))
    } else {
        Ok(ServerArgumentsView { endpoint: spec_advertised_endpoint(s), ..s })
    }
}

/// Checks the settings read from the command line and fills in the advertised endpoint.
#[verifier::loop_isolation(false)]
pub fn check_server_arguments(s: ServerArguments, lease_positive: bool) -> (r: Result<
    ServerArguments,
    ServerArgumentError,
>)
    ensures
        match spec_check_server(s@, lease_positive) {
            Ok(v) => r matches Ok(a) && a@ == v,
            Err(e) => r matches Err(x) && x@ == e,
        },
{
    let mut s = s;
    if is_blank(s.node_id.as_str()) || s.key_groups == 0 || !lease_positive || !(2 <= s.log_shards
        && s.log_shards <= 256) {
        return Err(ServerArgumentError::InvalidSettings);
    }
    let ghost before = s@;
    if s.endpoint.as_str().unicode_len() == 0 {
        let mut endpoint = String::new();
        endpoint.append("http://");
        match &s.execution_listen {
            Some(l) => endpoint.append(l.as_str()),
            None => endpoint.append(s.listen.as_str()),
        }
        s.endpoint = endpoint;
    }
    assert(s.endpoint@ == spec_advertised_endpoint(before));
    if !parses_as_url(s.endpoint.as_str()) {
        return Err(ServerArgumentError::InvalidEndpoint);
    }
    match &s.owned_partitions {
        Some(ps) => {
            let mut i: usize = 0;
            while i < ps.len()
                invariant
                    i <= ps@.len(),
                    forall|k: int| 0 <= k < i ==> !(#[trigger] ps@[k] == 0 || ps@[k] >= s.log_shards),
                decreases ps.len() - i,
            {
                if ps[i] == 0 || ps[i] >= s.log_shards {
                    assert(before.owned_partitions == Some(ps@));
                    assert(ps@[i as int] == 0 || ps@[i as int] >= before.log_shards);
                    assert(partition_out_of_range(ps@, before.log_shards));
                    return Err(ServerArgumentError::PartitionOutOfRange(s.log_shards - 1));
                }
                i = i + 1;
            }
        },
        None => {},
    }
    Ok(s)
}

/// Which log shards this node runs a process partition for: shard 0 never, and each other
/// shard when no partitions were named or when it is among them.
pub open spec fn spec_owns_shard(owned: Option<Seq<usize>>, shard: int) -> bool {
    shard != 0 && match owned {
        None => true,
        Some(ps) => ps.contains(shard as usize),
    }
}

pub fn owned_shards(owned: &Option<Vec<usize>>, log_shards: usize) -> (owns: Vec<bool>)
    ensures
        owns@.len() == log_shards,
        forall|shard: int|
            0 <= shard < log_shards ==> #[trigger] owns@[shard] == spec_owns_shard(
                match owned {
                    Some(p) => Some(p@),
                    None => None,
                },
                shard,
            ),
{
    let ghost view = match owned {
        Some(p) => Some(p@),
        None => None,
    };
    let mut owns: Vec<bool> = Vec::new();
    let mut shard: usize = 0;
    while shard < log_shards
        invariant
            shard <= log_shards,
            owns@.len() == shard,
            view == match owned {
                Some(p) => Some(p@),
                None => None::<Seq<usize>>,
            },
            forall|k: int| 0 <= k < shard ==> #[trigger] owns@[k] == spec_owns_shard(view, k),
        decreases log_shards - shard,
    {
        let own = if shard == 0 {
            false
        } else {
            match owned {
                None => true,
                Some(ps) => {
                    let mut found = false;
                    let mut j: usize = 0;
                    while j < ps.len()
                        invariant
                            j <= ps@.len(),
                            found == exists|k: int| 0 <= k < j && ps@[k] == shard,
                        decreases ps.len() - j,
                    {
                        if ps[j] == shard {
                            found = true;
                        }
                        j = j + 1;
                    }
                    found
                },
            }
        };
        owns.push(own);
        shard = shard + 1;
    }
    owns
}

/// Why a deployment's security settings were refused.
#[derive(Debug, Clone, Copy, PartialEq, Eq, Structural)]
pub enum DeploymentError {
    /// A remote journal without a cluster token of at least 32 bytes.
    ClusterTokenTooShort,
    /// An execution identity without a unique 32-byte token, a task queue, or build IDs.
    InvalidExecutionIdentities,
    /// A remote journal without a separate execution listener.
    RemoteJournalNeedsExecutionListener,
    /// A remote journal without deployment-scoped execution identities.
    RemoteJournalNeedsIdentities,
    /// An API token shorter than 32 bytes.
    ApiTokenTooShort,
    /// An API token without a separate execution listener, which would expose worker APIs.
    ApiTokenNeedsExecutionListener,
}

/// The length of a text in UTF-8 bytes, as `str::len` counts it.
pub open spec fn byte_len(text: Seq<char>) -> nat {
    vstd::utf8::encode_utf8(text).len()
}

/// The cluster token read from its file: the contents trimmed. A remote journal needs one
/// of at least 32 bytes.
pub open spec fn spec_cluster_token(remote_journal: bool, contents: Option<Seq<char>>) -> Result<
    Option<Seq<char>>,
    DeploymentError,
> {
    let token = match contents {
        Some(c) => Some(spec_trim(c)),
        None => None,
    };
    if remote_journal && (token matches Some(t) ==> byte_len(t) < 32) {
        Err(DeploymentError::ClusterTokenTooShort)
    } else {
        Ok(token)
    }
}

pub fn cluster_token(remote_journal: bool, contents: Option<String>) -> (r: Result<
    Option<String>,
    DeploymentError,
>)
    ensures
        match spec_cluster_token(remote_journal, text_opt(contents)) {
            Ok(t) => r matches Ok(x) && text_opt(x) == t,
            Err(e) => r == Err::<Option<String>, DeploymentError>(e),
        },
{
    let token = match contents {
        Some(c) => Some(trim(c.as_str())),
        None => None,
    };
    let short = match &token {
        Some(t) => t.as_str().as_bytes().len() < 32,
        None => true,
    };
    if remote_journal && short {
        return Err(DeploymentError::ClusterTokenTooShort);
    }
    Ok(token)
}

/// One identity lacks a 32-byte token, a task queue or a build ID.
pub open spec fn identity_is_incomplete(identity: ExecutionIdentity) -> bool {
    byte_len(identity.token@) < 32 || spec_is_blank(identity.task_queue@)
        || identity.build_ids@.len() == 0
}

/// Every execution identity is complete and no two share a token.
pub open spec fn identities_are_valid(identities: Seq<ExecutionIdentity>) -> bool {
    &&& forall|i: int| 0 <= i < identities.len() ==> !identity_is_incomplete(#[trigger] identities[i])
    &&& forall|i: int, j: int|
        0 <= i < j < identities.len() ==> identities[i].token@ != identities[j].token@
}

pub fn check_execution_identities(identities: &[ExecutionIdentity]) -> (r: Result<
    (),
    DeploymentError,
>)
    ensures
        r is Ok <==> identities_are_valid(identities@),
        r is Err ==> r == Err::<(), DeploymentError>(DeploymentError::InvalidExecutionIdentities),
{
    let mut i: usize = 0;
    while i < identities.len()
        invariant
            i <= identities@.len(),
            identities_are_valid(identities@.take(i as int)),
        decreases identities.len() - i,
    {
        let identity = &identities[i];
        if identity.token.as_str().as_bytes().len() < 32 || is_blank(identity.task_queue.as_str())
            || identity.build_ids.len() == 0 {
            assert(identity_is_incomplete(identities@[i as int]));
            return Err(DeploymentError::InvalidExecutionIdentities);
        }
        let mut j: usize = 0;
        while j < i
            invariant
                j <= i < identities@.len(),
                forall|k: int| 0 <= k < j ==> identities@[k].token@ != identities@[i as int].token@,
            decreases i - j,
        {
            if str_eq(identities[j].token.as_str(), identities[i].token.as_str()) {
                assert(identities@[j as int].token@ == identities@[i as int].token@);
                return Err(DeploymentError::InvalidExecutionIdentities);
            }
            j = j + 1;
        }
        assert(identities@.take(i + 1) =~= identities@.take(i as int).push(identities@[i as int]));
        i = i + 1;
    }
    assert(identities@.take(i as int) =~= identities@);
    Ok(())
}

/// A remote journal needs a separate execution listener and execution identities.
pub open spec fn spec_check_remote_journal(
    remote_journal: bool,
    execution_listener: bool,
    identities: nat,
) -> Result<(), DeploymentError> {
    if remote_journal && !execution_listener {
        Err(DeploymentError::RemoteJournalNeedsExecutionListener)
    } else if remote_journal && identities == 0 {
        Err(DeploymentError::RemoteJournalNeedsIdentities)
    } else {
        Ok(())
    }
}

pub fn check_remote_journal(remote_journal: bool, execution_listener: bool, identities: usize) -> (r:
    Result<(), DeploymentError>)
    ensures
        r == spec_check_remote_journal(remote_journal, execution_listener, identities as nat),
{
    if remote_journal && !execution_listener {
        Err(DeploymentError::RemoteJournalNeedsExecutionListener)
    } else if remote_journal && identities == 0 {
        Err(DeploymentError::RemoteJournalNeedsIdentities)
    } else {
        Ok(())
    }
}

/// The API token read from its file: the contents trimmed, at least 32 bytes, and only
/// with a separate execution listener so worker APIs stay private.
pub open spec fn spec_api_token(contents: Option<Seq<char>>, execution_listener: bool) -> Result<
    Option<Seq<char>>,
    DeploymentError,
> {
    match contents {
        None => Ok(None),
        Some(c) => if byte_len(spec_trim(c)) < 32 {
            Err(DeploymentError::ApiTokenTooShort)
        } else if !execution_listener {
            Err(DeploymentError::ApiTokenNeedsExecutionListener)
        } else {
            Ok(Some(spec_trim(c)))
        },
    }
}

pub fn api_token(contents: Option<String>, execution_listener: bool) -> (r: Result<
    Option<String>,
    DeploymentError,
>)
    ensures
        match spec_api_token(text_opt(contents), execution_listener) {
            Ok(t) => r matches Ok(x) && text_opt(x) == t,
            Err(e) => r == Err::<Option<String>, DeploymentError>(e),
        },
{
    match contents {
        None => Ok(None),
        Some(c) => {
            let token = trim(c.as_str());
            if token.as_str().as_bytes().len() < 32 {
                Err(DeploymentError::ApiTokenTooShort)
            } else if !execution_listener {
                Err(DeploymentError::ApiTokenNeedsExecutionListener)
            } else {
                Ok(Some(token))
            }
        },
    }
}

} // verus!
