use vstd::prelude::*;
use vstd::string::StringExecFns;
use std::collections::BTreeMap;
use crate::text::{chars_of, copy_range, string_of};

verus! {

/// An object kept in a column family of the registry store. Where a stored record cannot be
/// read as one, a blank object stands in its place.
pub trait StoredObject: Sized {
    /// Every field holds its empty value.
    spec fn is_blank(&self) -> bool;

    fn blank() -> (r: Self)
        ensures
            r.is_blank(),
    ;
}

/// The column family of registry map records.
pub const COLUMN_NAME_REGISTRY_MAP_STORE: &'static str = "RegistryMapStore";

/// The column family of connected registry configurations.
pub const COLUMN_NAME_ON_PREM_CONFIG_STORE_CONFIG: &'static str = "onpremconfigstore-config";

/// The column family of user tables.
pub const COLUMN_NAME_ON_PREM_CONFIG_STORE_USERS: &'static str = "onpremconfigstore-users";

/// The column family of reported configurations.
pub const COLUMN_NAME_ON_PREM_CONFIG_STORE_REPORTED_CONFIG: &'static str =
    "onpremconfigstore-reported-config";

/// The column family of repositories.
pub const COLUMN_NAME_REPOSITORY: &'static str = "Repository";

/// The column family of manifest metadata.
pub const COLUMN_NAME_REPOSITORY_MANIFEST_METADATA: &'static str = "RepositoryManifestMetadata";

/// The column family of tag metadata.
pub const COLUMN_NAME_REPOSITORY_TAG_METADATA: &'static str = "RepositoryTagMetadata";

/// Where the configuration store lives.
pub const CONFIG_STORE_ROOT_PATH: &'static str = "/var/acr/data/rocksdb/config";

/// Where the metadata store lives.
pub const METADATA_STORE_ROOT_PATH: &'static str = "/var/acr/data/rocksdb/metadata";

/// HTTP status of a listing that was found.
pub const STATUS_OK: u16 = 200;

/// HTTP status of a listing whose store could not be opened.
pub const STATUS_NOT_FOUND: u16 = 404;

/// The answer to a request for a listing: the objects with `200`, or an empty list with `404`
/// where the store could not be opened.
pub fn list_response<T>(objects: Option<Vec<T>>) -> (r: (u16, Vec<T>))
    ensures
        objects is Some ==> r.0 == STATUS_OK && r.1@ == objects->0@,
        objects is None ==> r.0 == STATUS_NOT_FOUND && r.1@.len() == 0,
{
    match objects {
        Some(v) => (STATUS_OK, v),
        None => (STATUS_NOT_FOUND, Vec::new()),
    }
}

/// The index of the last `"` in `s` before index `e`, or -1.
pub open spec fn last_quote_before(s: Seq<char>, e: int) -> int
    decreases e,
{
    if e <= 0 {
        -1
    } else if s[e - 1] == '"' {
        e - 1
    } else {
        last_quote_before(s, e - 1)
    }
}

/// The property a JSON reading error points at: split the text before the error at each `"`
/// and take the second-to-last piece. `None` where the text before the error holds no `"`.
pub open spec fn property_at_spec(s: Seq<char>) -> Option<Seq<char>> {
    let q2 = last_quote_before(s, s.len() as int);
    if q2 < 0 {
        None
    } else {
        Some(s.subrange(last_quote_before(s, q2) + 1, q2))
    }
}

/// The last `"` before `e`, if any, lies before `e`.
pub proof fn lemma_last_quote_before(s: Seq<char>, e: int)
    requires
        0 <= e <= s.len(),
    ensures
        -1 <= last_quote_before(s, e) < e,
    decreases e,
{
    if e > 0 && s[e - 1] != '"' {
        lemma_last_quote_before(s, e - 1);
    }
}

/// Best-effort name of the property at which reading a stored JSON record failed, from the
/// record's text and the error's column (counted in characters).
pub fn property_at_error(raw_json: &str, column: usize) -> (r: Option<String>)
    ensures
        ({
            let s = raw_json@.subrange(0, if column <= raw_json@.len() { column as int } else { raw_json@.len() as int });
            match r {
                Some(p) => property_at_spec(s) == Some(p@),
                None => property_at_spec(s) is None,
            }
        }),
{
    let all = chars_of(raw_json);
    let n = if column <= all.len() {
        column
    } else {
        all.len()
    };
    let v = copy_range(&all, 0, n);
    let mut e: usize = n;
    while e > 0 && v[e - 1] != '"'
        invariant
            e <= v.len(),
            last_quote_before(v@, e as int) == last_quote_before(v@, v.len() as int),
        decreases e,
    {
        e -= 1;
    }
    if e == 0 {
        return None;
    }
    let q2 = e - 1;
    assert(last_quote_before(v@, v.len() as int) == q2);
    let mut b: usize = q2;
    while b > 0 && v[b - 1] != '"'
        invariant
            b <= q2 < v.len(),
            last_quote_before(v@, b as int) == last_quote_before(v@, q2 as int),
        decreases b,
    {
        b -= 1;
    }
    let start: usize = b;
    proof {
        lemma_last_quote_before(v@, q2 as int);
        if b > 0 {
            assert(last_quote_before(v@, b as int) == b - 1);
        } else {
            assert(last_quote_before(v@, 0) == -1);
        }
    }
    Some(string_of(&copy_range(&v, start, q2)))
}

/// How `records` becomes the objects of a column family: `None` stays `None` (the store
/// could not be opened); otherwise one object per record, in order, the record itself where
/// it was read and a blank object where it was not.
pub open spec fn objects_spec<T: StoredObject>(
    records: Option<Seq<Option<T>>>,
    r: Option<Seq<T>>,
) -> bool {
    match records {
        None => r is None,
        Some(recs) => match r {
            None => false,
            Some(objs) => {
                &&& objs.len() == recs.len()
                &&& forall|i: int|
                    0 <= i < recs.len() ==> match #[trigger] recs[i] {
                        Some(x) => objs[i] == x,
                        None => objs[i].is_blank(),
                    }
            },
        },
    }
}

/// The records of one column family as a sequence.
pub open spec fn records_view<T>(records: Option<Vec<Option<T>>>) -> Option<Seq<Option<T>>> {
    match records {
        Some(v) => Some(v@),
        None => None,
    }
}

/// The objects as a sequence.
pub open spec fn objects_view<T>(r: Option<Vec<T>>) -> Option<Seq<T>> {
    match r {
        Some(v) => Some(v@),
        None => None,
    }
}

/// The objects of a column family, from its records as read from the store.
pub fn objects_or_blank<T: StoredObject>(records: Option<Vec<Option<T>>>) -> (r: Option<Vec<T>>)
    ensures
        objects_spec(records_view(records), objects_view(r)),
{
    match records {
        None => None,
        Some(recs) => {
            let ghost rs = recs@;
            let mut out: Vec<T> = Vec::new();
            for rec in it: recs.into_iter()
                invariant
                    it.seq() == rs,
                    out.len() == it.index(),
                    forall|i: int|
                        0 <= i < it.index() ==> match #[trigger] rs[i] {
                            Some(x) => out@[i] == x,
                            None => out@[i].is_blank(),
                        },
            {
                match rec {
                    Some(x) => out.push(x),
                    None => out.push(T::blank()),
                }
            }
            Some(out)
        },
    }
}

/// The path of the store of one registry under `root`.
pub fn registry_store_path(root: &str, registry_id: &str) -> (r: String)
    ensures
        r@ == root@ + seq!['/'] + registry_id@,
{
    let mut r = String::from_str(root);
    r.push('/');
    r.append(registry_id);
    r
}

/// The current registry map in the store.
pub fn get_registry_map_store(records: Option<Vec<Option<RegistryMapStore>>>) -> (r: Option<
    Vec<RegistryMapStore>,
>)
    ensures
        objects_spec(records_view(records), objects_view(r)),
{
    objects_or_blank(records)
}

/// The current registry configuration in the store.
pub fn get_registry_config_store_config(records: Option<Vec<Option<Config>>>) -> (r: Option<
    Vec<Config>,
>)
    ensures
        objects_spec(records_view(records), objects_view(r)),
{
    objects_or_blank(records)
}

/// The current user tables in the store.
pub fn get_registry_config_store_users(
    records: Option<Vec<Option<BTreeMap<String, User>>>>,
) -> (r: Option<Vec<BTreeMap<String, User>>>)
    ensures
        objects_spec(records_view(records), objects_view(r)),
{
    objects_or_blank(records)
}

/// The repositories of a registry.
pub fn list_repositories(records: Option<Vec<Option<Repository>>>) -> (r: Option<
    Vec<Repository>,
>)
    ensures
        objects_spec(records_view(records), objects_view(r)),
{
    objects_or_blank(records)
}

/// The manifest metadata of a registry.
pub fn list_repository_manifests(records: Option<Vec<Option<ManifestMetadata>>>) -> (r: Option<
    Vec<ManifestMetadata>,
>)
    ensures
        objects_spec(records_view(records), objects_view(r)),
{
    objects_or_blank(records)
}

/// The tag metadata of a registry.
pub fn list_repository_tags(records: Option<Vec<Option<TagMetadata>>>) -> (r: Option<
    Vec<TagMetadata>,
>)
    ensures
        objects_spec(records_view(records), objects_view(r)),
{
    objects_or_blank(records)
}

impl StoredObject for BTreeMap<String, User> {
    open spec fn is_blank(&self) -> bool {
        self@ == Map::<String, User>::empty()
    }

    fn blank() -> (r: Self) {
        BTreeMap::new()
    }
}

/// A connected registry's place in the registry hierarchy.
pub struct RegistryMapStore {
    pub children: Vec<String>,
    pub connected_registry_id: String,
    pub parent_registry_id: String,
    pub connected_registry_name: String,
}

impl StoredObject for RegistryMapStore {
    open spec fn is_blank(&self) -> bool {
        self.children@.len() == 0
            && self.connected_registry_id@.len() == 0
            && self.parent_registry_id@.len() == 0
            && self.connected_registry_name@.len() == 0
    }

    fn blank() -> (r: Self) {
        RegistryMapStore {
            children: Vec::new(),
            connected_registry_id: String::new(),
            parent_registry_id: String::new(),
            connected_registry_name: String::new(),
        }
    }
}

/// The configuration of a connected registry.
pub struct Config {
    pub authorization_modes: Vec<String>,
    pub authorization_server: Option<String>,
    pub config_revision_id: String,
    pub connected_registry_id: String,
    pub connected_registry_name: String,
    pub connected_registry_path: String,
    pub login_server: String,
    pub login_server_properties: Option<String>,
    pub latest_reported_message_seq_number: Option<String>,
    pub mode: String,
    pub notifications_list: Option<String>,
    pub parent_registry_id: String,
    pub runtime_version: Option<String>,
    pub activation: Activation,
    pub logging: Log,
    pub parent: Parent,
}

impl StoredObject for Config {
    open spec fn is_blank(&self) -> bool {
        self.authorization_modes@.len() == 0
            && self.authorization_server is None
            && self.config_revision_id@.len() == 0
            && self.connected_registry_id@.len() == 0
            && self.connected_registry_name@.len() == 0
            && self.connected_registry_path@.len() == 0
            && self.login_server@.len() == 0
            && self.login_server_properties is None
            && self.latest_reported_message_seq_number is None
            && self.mode@.len() == 0
            && self.notifications_list is None
            && self.parent_registry_id@.len() == 0
            && self.runtime_version is None
            && self.activation.is_blank()
            && self.logging.is_blank()
            && self.parent.is_blank()
    }

    fn blank() -> (r: Self) {
        Config {
            authorization_modes: Vec::new(),
            authorization_server: None,
            config_revision_id: String::new(),
            connected_registry_id: String::new(),
            connected_registry_name: String::new(),
            connected_registry_path: String::new(),
            login_server: String::new(),
            login_server_properties: None,
            latest_reported_message_seq_number: None,
            mode: String::new(),
            notifications_list: None,
            parent_registry_id: String::new(),
            runtime_version: None,
            activation: Activation::blank(),
            logging: Log::blank(),
            parent: Parent::blank(),
        }
    }
}

/// The login server of a connected registry.
pub struct LoginServerProperties {
    pub host: String,
    pub tls: TlsProperties,
}

impl StoredObject for LoginServerProperties {
    open spec fn is_blank(&self) -> bool {
        self.host@.len() == 0
            && self.tls.is_blank()
    }

    fn blank() -> (r: Self) {
        LoginServerProperties {
            host: String::new(),
            tls: TlsProperties::blank(),
        }
    }
}

/// TLS settings of a login server.
pub struct TlsProperties {
    pub status: String,
    pub certificate: TlsCertificateProperties,
}

impl StoredObject for TlsProperties {
    open spec fn is_blank(&self) -> bool {
        self.status@.len() == 0
            && self.certificate.is_blank()
    }

    fn blank() -> (r: Self) {
        TlsProperties {
            status: String::new(),
            certificate: TlsCertificateProperties::blank(),
        }
    }
}

/// Where a TLS certificate is found.
pub struct TlsCertificateProperties {
    pub certificate_type: String,
    pub location: String,
}

impl StoredObject for TlsCertificateProperties {
    open spec fn is_blank(&self) -> bool {
        self.certificate_type@.len() == 0
            && self.location@.len() == 0
    }

    fn blank() -> (r: Self) {
        TlsCertificateProperties {
            certificate_type: String::new(),
            location: String::new(),
        }
    }
}

/// The parent of a connected registry.
pub struct Parent {
    pub id: Option<String>,
    pub sync_properties: Sync,
}

impl StoredObject for Parent {
    open spec fn is_blank(&self) -> bool {
        self.id is None
            && self.sync_properties.is_blank()
    }

    fn blank() -> (r: Self) {
        Parent {
            id: None,
            sync_properties: Sync::blank(),
        }
    }
}

/// A user of a connected registry.
pub struct User {
    pub connected_registry_id: String,
    pub parent_registry_id: String,
    pub permission_jsons: Vec<String>,
    pub password_json: String,
    pub user_id: String,
    pub user_name: String,
}

impl StoredObject for User {
    open spec fn is_blank(&self) -> bool {
        self.connected_registry_id@.len() == 0
            && self.parent_registry_id@.len() == 0
            && self.permission_jsons@.len() == 0
            && self.password_json@.len() == 0
            && self.user_id@.len() == 0
            && self.user_name@.len() == 0
    }

    fn blank() -> (r: Self) {
        User {
            connected_registry_id: String::new(),
            parent_registry_id: String::new(),
            permission_jsons: Vec::new(),
            password_json: String::new(),
            user_id: String::new(),
            user_name: String::new(),
        }
    }
}

/// Logging settings of a connected registry.
pub struct Log {
    pub audit_log_enabled: bool,
    pub log_level: String,
}

impl StoredObject for Log {
    open spec fn is_blank(&self) -> bool {
        !self.audit_log_enabled
            && self.log_level@.len() == 0
    }

    fn blank() -> (r: Self) {
        Log {
            audit_log_enabled: false,
            log_level: String::new(),
        }
    }
}

/// The activation state of a connected registry.
pub struct Activation {
    pub activation_id: Option<String>,
    pub status: String,
}

impl StoredObject for Activation {
    open spec fn is_blank(&self) -> bool {
        self.activation_id is None
            && self.status@.len() == 0
    }

    fn blank() -> (r: Self) {
        Activation {
            activation_id: None,
            status: String::new(),
        }
    }
}

/// How a connected registry synchronises with its parent.
pub struct Sync {
    pub gateway_endpoint: Option<String>,
    pub last_sync_time: Option<String>,
    pub message_ttl: String,
    pub next_sync_time: Option<String>,
    pub schedule: String,
    pub sync_window: String,
    pub token_config: User,
}

impl StoredObject for Sync {
    open spec fn is_blank(&self) -> bool {
        self.gateway_endpoint is None
            && self.last_sync_time is None
            && self.message_ttl@.len() == 0
            && self.next_sync_time is None
            && self.schedule@.len() == 0
            && self.sync_window@.len() == 0
            && self.token_config.is_blank()
    }

    fn blank() -> (r: Self) {
        Sync {
            gateway_endpoint: None,
            last_sync_time: None,
            message_ttl: String::new(),
            next_sync_time: None,
            schedule: String::new(),
            sync_window: String::new(),
            token_config: User::blank(),
        }
    }
}

/// A repository in the registry metadata.
pub struct Repository {
    pub no_delete: bool,
    pub no_change: bool,
    pub no_list: bool,
    pub no_read: bool,
    pub metadata_update_time: String,
    pub last_update_time: String,
    pub created_time: String,
    pub is_new_repository: bool,
    pub repository_name: String,
    pub locked: bool,
    pub locked_timestamp: String,
    pub repository_id: String,
}

impl StoredObject for Repository {
    open spec fn is_blank(&self) -> bool {
        !self.no_delete
            && !self.no_change
            && !self.no_list
            && !self.no_read
            && self.metadata_update_time@.len() == 0
            && self.last_update_time@.len() == 0
            && self.created_time@.len() == 0
            && !self.is_new_repository
            && self.repository_name@.len() == 0
            && !self.locked
            && self.locked_timestamp@.len() == 0
            && self.repository_id@.len() == 0
    }

    fn blank() -> (r: Self) {
        Repository {
            no_delete: false,
            no_change: false,
            no_list: false,
            no_read: false,
            metadata_update_time: String::new(),
            last_update_time: String::new(),
            created_time: String::new(),
            is_new_repository: false,
            repository_name: String::new(),
            locked: false,
            locked_timestamp: String::new(),
            repository_id: String::new(),
        }
    }
}

/// A tag in the registry metadata.
pub struct TagMetadata {
    pub no_delete: bool,
    pub no_change: bool,
    pub no_list: bool,
    pub no_read: bool,
    pub metadata_update_time: String,
    pub last_update_time: String,
    pub created_time: String,
    pub repository_id: String,
    pub tag: String,
    pub digest: String,
    pub signature_record: Option<String>,
    pub quarantine_state: Option<String>,
}

impl StoredObject for TagMetadata {
    open spec fn is_blank(&self) -> bool {
        !self.no_delete
            && !self.no_change
            && !self.no_list
            && !self.no_read
            && self.metadata_update_time@.len() == 0
            && self.last_update_time@.len() == 0
            && self.created_time@.len() == 0
            && self.repository_id@.len() == 0
            && self.tag@.len() == 0
            && self.digest@.len() == 0
            && self.signature_record is None
            && self.quarantine_state is None
    }

    fn blank() -> (r: Self) {
        TagMetadata {
            no_delete: false,
            no_change: false,
            no_list: false,
            no_read: false,
            metadata_update_time: String::new(),
            last_update_time: String::new(),
            created_time: String::new(),
            repository_id: String::new(),
            tag: String::new(),
            digest: String::new(),
            signature_record: None,
            quarantine_state: None,
        }
    }
}

/// A manifest in the registry metadata.
pub struct ManifestMetadata {
    pub no_delete: bool,
    pub no_change: bool,
    pub no_list: bool,
    pub no_read: bool,
    pub metadata_update_time: String,
    pub last_update_time: String,
    pub created_time: String,
    pub repository_id: String,
    pub digest: String,
    pub size: i64,
    pub image_size: i64,
    pub os: Option<String>,
    pub media_type: String,
    pub config_media_type: Option<String>,
    pub architecture: Option<String>,
    pub references: Option<String>,
    pub quarantine_tag: Option<String>,
    pub quarantine_details: Option<String>,
    pub quarantine_state: Option<String>,
}

impl StoredObject for ManifestMetadata {
    open spec fn is_blank(&self) -> bool {
        !self.no_delete
            && !self.no_change
            && !self.no_list
            && !self.no_read
            && self.metadata_update_time@.len() == 0
            && self.last_update_time@.len() == 0
            && self.created_time@.len() == 0
            && self.repository_id@.len() == 0
            && self.digest@.len() == 0
            && self.size == 0
            && self.image_size == 0
            && self.os is None
            && self.media_type@.len() == 0
            && self.config_media_type is None
            && self.architecture is None
            && self.references is None
            && self.quarantine_tag is None
            && self.quarantine_details is None
            && self.quarantine_state is None
    }

    fn blank() -> (r: Self) {
        ManifestMetadata {
            no_delete: false,
            no_change: false,
            no_list: false,
            no_read: false,
            metadata_update_time: String::new(),
            last_update_time: String::new(),
            created_time: String::new(),
            repository_id: String::new(),
            digest: String::new(),
            size: 0,
            image_size: 0,
            os: None,
            media_type: String::new(),
            config_media_type: None,
            architecture: None,
            references: None,
            quarantine_tag: None,
            quarantine_details: None,
            quarantine_state: None,
        }
    }
}

} // verus!
