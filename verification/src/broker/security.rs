//! Security: users, roles and permissions, authentication, sessions,
//! encryption keys and the audit log.
//!
//! Reading certificate files and the clock are the caller's; the manager
//! decides, from what it is handed, who is authenticated and authorized,
//! and keeps the record.

use vstd::prelude::*;
use std::time::Duration;
use crate::broker::error::{Error, Result, is_storage_error};
use crate::broker::hashing::hash_u64;
use crate::broker::message::opt_text;
use crate::broker::names::NameMap;
use crate::broker::text::{hex, push_hex};
use crate::broker::time::{add_duration, duration_from_secs, duration_nanos};
use crate::qiss::types::Timestamp;

verus! {

/// Security configuration.
#[derive(Debug)]
pub struct SecurityConfig {
    /// Enable TLS
    pub enable_tls: bool,
    /// TLS version
    pub tls_version: TlsVersion,
    /// Certificate file path
    pub cert_file: Option<String>,
    /// Private key file path
    pub key_file: Option<String>,
    /// CA certificate file path
    pub ca_cert_file: Option<String>,
    /// Enable mutual TLS (mTLS)
    pub enable_mtls: bool,
    /// Enable client certificate verification
    pub verify_client_cert: bool,
    /// Enable authentication
    pub enable_authentication: bool,
    /// Authentication method
    pub auth_method: AuthenticationMethod,
    /// Enable authorization
    pub enable_authorization: bool,
    /// Authorization model
    pub authz_model: AuthorizationModel,
    /// Enable audit logging
    pub enable_audit_logging: bool,
    /// Audit log level
    pub audit_log_level: AuditLogLevel,
    /// Enable encryption at rest
    pub enable_encryption_at_rest: bool,
    /// Encryption algorithm
    pub encryption_algorithm: EncryptionAlgorithm,
    /// Key rotation interval
    pub key_rotation_interval: Duration,
    /// Session timeout
    pub session_timeout: Duration,
    /// Maximum failed login attempts
    pub max_failed_attempts: u32,
    /// Account lockout duration
    pub lockout_duration: Duration,
}

impl Default for SecurityConfig {
    fn default() -> (c: Self)
        ensures
            c.enable_tls,
            c.tls_version == TlsVersion::Tls13,
            c.cert_file is None,
            c.key_file is None,
            c.ca_cert_file is None,
            !c.enable_mtls,
            !c.verify_client_cert,
            c.enable_authentication,
            c.auth_method == AuthenticationMethod::Jwt,
            c.enable_authorization,
            c.authz_model == AuthorizationModel::Rbac,
            c.enable_audit_logging,
            c.audit_log_level == AuditLogLevel::Info,
            c.enable_encryption_at_rest,
            c.encryption_algorithm == EncryptionAlgorithm::Aes256Gcm,
            duration_nanos(c.key_rotation_interval) == 86400 * 1_000_000_000,
            duration_nanos(c.session_timeout) == 3600 * 1_000_000_000,
            c.max_failed_attempts == 5,
            duration_nanos(c.lockout_duration) == 900 * 1_000_000_000,
    {
        SecurityConfig {
            enable_tls: true,
            tls_version: TlsVersion::Tls13,
            cert_file: None,
            key_file: None,
            ca_cert_file: None,
            enable_mtls: false,
            verify_client_cert: false,
            enable_authentication: true,
            auth_method: AuthenticationMethod::Jwt,
            enable_authorization: true,
            authz_model: AuthorizationModel::Rbac,
            enable_audit_logging: true,
            audit_log_level: AuditLogLevel::Info,
            enable_encryption_at_rest: true,
            encryption_algorithm: EncryptionAlgorithm::Aes256Gcm,
            key_rotation_interval: duration_from_secs(86400),
            session_timeout: duration_from_secs(3600),
            max_failed_attempts: 5,
            lockout_duration: duration_from_secs(900),
        }
    }
}

/// TLS version.
#[derive(Debug, Clone, Copy, PartialEq, Eq, Structural)]
pub enum TlsVersion {
    /// TLS 1.2
    Tls12,
    /// TLS 1.3
    Tls13,
}

/// Authentication method.
#[derive(Debug, Clone, Copy, PartialEq, Eq, Structural)]
pub enum AuthenticationMethod {
    /// Username/password
    UsernamePassword,
    /// JWT tokens
    Jwt,
    /// OAuth2
    OAuth2,
    /// LDAP
    Ldap,
    /// Kerberos
    Kerberos,
    /// Certificate-based
    Certificate,
    /// Multi-factor authentication
    Mfa,
}

/// Authorization model.
#[derive(Debug, Clone, Copy, PartialEq, Eq, Structural)]
pub enum AuthorizationModel {
    /// Role-based access control
    Rbac,
    /// Attribute-based access control
    Abac,
    /// Discretionary access control
    Dac,
    /// Mandatory access control
    Mac,
}

/// Audit log level.
#[derive(Debug, Clone, Copy, PartialEq, Eq, Structural)]
pub enum AuditLogLevel {
    /// Debug level
    Debug,
    /// Info level
    Info,
    /// Warning level
    Warning,
    /// Error level
    Error,
    /// Critical level
    Critical,
}

/// Encryption algorithm.
#[derive(Debug, Clone, Copy, PartialEq, Eq, Structural)]
pub enum EncryptionAlgorithm {
    /// AES-256-GCM
    Aes256Gcm,
    /// AES-256-CBC
    Aes256Cbc,
    /// ChaCha20-Poly1305
    ChaCha20Poly1305,
    /// XChaCha20-Poly1305
    XChaCha20Poly1305,
}

/// User information.
#[derive(Debug)]
pub struct User {
    /// User ID
    pub user_id: String,
    /// Username
    pub username: String,
    /// Email
    pub email: String,
    /// Roles
    pub roles: Vec<String>,
    /// Permissions
    pub permissions: Vec<Permission>,
    /// Account status
    pub status: AccountStatus,
    /// Created timestamp
    pub created_at: Timestamp,
    /// Last login timestamp
    pub last_login: Option<Timestamp>,
    /// Failed login attempts
    pub failed_attempts: u32,
    /// Account locked until
    pub locked_until: Option<Timestamp>,
}

/// Account status.
#[derive(Debug, Clone, Copy, PartialEq, Eq, Structural)]
pub enum AccountStatus {
    /// Active
    Active,
    /// Inactive
    Inactive,
    /// Suspended
    Suspended,
    /// Locked
    Locked,
}

/// Permission.
#[derive(Debug)]
pub struct Permission {
    /// Resource
    pub resource: String,
    /// Actions
    pub actions: Vec<Action>,
    /// Conditions
    pub conditions: Vec<Condition>,
}

/// Action.
#[derive(Debug, Clone, Copy, PartialEq, Eq, Structural)]
pub enum Action {
    /// Read
    Read,
    /// Write
    Write,
    /// Delete
    Delete,
    /// Admin
    Admin,
    /// Execute
    Execute,
}

/// Condition.
#[derive(Debug)]
pub struct Condition {
    /// Condition type
    pub condition_type: ConditionType,
    /// Condition value
    pub value: String,
}

/// Condition type.
#[derive(Debug, Clone, Copy, PartialEq, Eq, Structural)]
pub enum ConditionType {
    /// Time-based
    TimeBased,
    /// IP-based
    IpBased,
    /// Resource-based
    ResourceBased,
    /// Custom
    Custom,
}

/// Role.
#[derive(Debug)]
pub struct Role {
    /// Role ID
    pub role_id: String,
    /// Role name
    pub name: String,
    /// Description
    pub description: String,
    /// Permissions
    pub permissions: Vec<Permission>,
    /// Created timestamp
    pub created_at: Timestamp,
}

/// Session.
#[derive(Debug)]
pub struct Session {
    /// Session ID
    pub session_id: String,
    /// User ID
    pub user_id: String,
    /// Created timestamp
    pub created_at: Timestamp,
    /// Expires at
    pub expires_at: Timestamp,
    /// Last activity
    pub last_activity: Timestamp,
    /// Client IP
    pub client_ip: String,
    /// User agent
    pub user_agent: String,
    /// Session data
    pub data: NameMap<String>,
}

/// Audit log entry.
#[derive(Debug)]
pub struct AuditLogEntry {
    /// Log ID
    pub log_id: String,
    /// Timestamp
    pub timestamp: Timestamp,
    /// User ID
    pub user_id: Option<String>,
    /// Action
    pub action: String,
    /// Resource
    pub resource: String,
    /// Result
    pub result: AuditResult,
    /// Client IP
    pub client_ip: String,
    /// User agent
    pub user_agent: String,
    /// Additional data
    pub additional_data: NameMap<String>,
}

/// Audit result.
#[derive(Debug, Clone, Copy, PartialEq, Eq, Structural)]
pub enum AuditResult {
    /// Success
    Success,
    /// Failure
    Failure,
    /// Denied
    Denied,
}

/// Credentials for authentication.
#[derive(Debug)]
pub struct Credentials {
    /// Authentication method
    pub method: AuthenticationMethod,
    /// Username
    pub username: Option<String>,
    /// Password
    pub password: Option<String>,
    /// JWT token
    pub token: Option<String>,
    /// Certificate
    pub certificate: Option<Vec<u8>>,
    /// Additional data
    pub additional_data: NameMap<String>,
}

/// Authentication result.
#[derive(Debug)]
pub struct AuthenticationResult {
    /// Whether authentication was successful
    pub success: bool,
    /// User ID if successful
    pub user_id: Option<String>,
    /// Session if created
    pub session: Option<Session>,
    /// Result message
    pub message: String,
}

/// JWT claims.
#[derive(Debug)]
pub struct JwtClaims {
    /// User ID
    pub user_id: String,
    /// Username
    pub username: String,
    /// Roles
    pub roles: Vec<String>,
    /// Expiration time
    pub exp: Timestamp,
}

/// Encrypted data.
#[derive(Debug)]
pub struct EncryptedData {
    /// Key ID used for encryption
    pub key_id: String,
    /// Encryption algorithm
    pub algorithm: EncryptionAlgorithm,
    /// Encrypted data
    pub data: Vec<u8>,
    /// Nonce/IV
    pub nonce: Vec<u8>,
    /// Authentication tag
    pub tag: Vec<u8>,
}

/// Encryption key.
#[derive(Debug)]
pub struct EncryptionKey {
    /// Key ID
    pub key_id: String,
    /// Key data
    pub key_data: Vec<u8>,
    /// Algorithm
    pub algorithm: EncryptionAlgorithm,
    /// Created timestamp
    pub created_at: Timestamp,
    /// Expires at
    pub expires_at: Timestamp,
}

/// TLS context: the certificate and key read from their files.
#[derive(Debug)]
pub struct TlsContext {
    /// Server certificate
    pub server_cert: Vec<u8>,
    /// Private key
    pub private_key: Vec<u8>,
    /// CA certificate
    pub ca_cert: Option<Vec<u8>>,
}

/// The pattern names the resource: `*` names every resource, any other
/// pattern only itself.
pub open spec fn resource_matches(pattern: Seq<char>, resource: Seq<char>) -> bool {
    pattern == "*"@ || pattern == resource
}

/// The password check: only the user `admin` with the password `password`
/// passes.
pub open spec fn password_ok(password: Seq<char>, username: Seq<char>) -> bool {
    password == "password"@ && username == "admin"@
}

/// The nonce and tag lengths of each algorithm.
pub open spec fn nonce_len(a: EncryptionAlgorithm) -> nat {
    match a {
        EncryptionAlgorithm::Aes256Gcm => 12,
        EncryptionAlgorithm::Aes256Cbc => 16,
        EncryptionAlgorithm::ChaCha20Poly1305 => 12,
        EncryptionAlgorithm::XChaCha20Poly1305 => 24,
    }
}

/// The tag length of each algorithm.
pub open spec fn tag_len(a: EncryptionAlgorithm) -> nat {
    match a {
        EncryptionAlgorithm::Aes256Cbc => 0,
        _ => 16,
    }
}

/// `n` zero bytes.
pub open spec fn zeros(n: nat) -> Seq<u8> {
    Seq::new(n, |i: int| 0u8)
}

/// A vector of `n` zero bytes.
pub fn zero_bytes(n: usize) -> (v: Vec<u8>)
    ensures
        v@ == zeros(n as nat),
{
    let mut v: Vec<u8> = Vec::new();
    let mut i: usize = 0;
    while i < n
        invariant
            i <= n,
            v@ == zeros(i as nat),
        decreases n - i,
    {
        v.push(0u8);
        i = i + 1;
        assert(v@ =~= zeros(i as nat));
    }
    v
}

/// A copy of a byte slice.
pub fn copy_bytes(data: &[u8]) -> (v: Vec<u8>)
    ensures
        v@ == data@,
{
    vstd::slice::slice_to_vec(data)
}

/// `e` is what encrypting `data` with `algorithm` gives: the data as it is,
/// labelled with the default key, with a zero nonce and tag of the
/// algorithm's lengths.
pub open spec fn sealed(e: EncryptedData, algorithm: EncryptionAlgorithm, data: Seq<u8>) -> bool {
    &&& e.key_id@ == "default"@
    &&& e.algorithm == algorithm
    &&& e.data@ == data
    &&& e.nonce@ == zeros(nonce_len(algorithm))
    &&& e.tag@ == zeros(tag_len(algorithm))
}

/// The account is locked at `now`.
pub open spec fn locked_at(u: User, now: Timestamp) -> bool {
    u.locked_until matches Some(t) && now.0 < t.0
}

/// `d` after `now`; the security manager is only used where this does not
/// pass the largest timestamp.
pub open spec fn after(now: Timestamp, d: Duration) -> Timestamp {
    Timestamp((now.0 + duration_nanos(d)) as u64)
}

/// What an audit log entry holds.
pub struct AuditView {
    /// Log ID
    pub log_id: Seq<char>,
    /// Timestamp
    pub timestamp: Timestamp,
    /// User ID
    pub user_id: Option<Seq<char>>,
    /// Action
    pub action: Seq<char>,
    /// Resource
    pub resource: Seq<char>,
    /// Result
    pub result: AuditResult,
    /// Client IP
    pub client_ip: Seq<char>,
    /// User agent
    pub user_agent: Seq<char>,
    /// Additional data
    pub additional_data: Map<Seq<char>, Seq<char>>,
}

impl View for AuditLogEntry {
    type V = AuditView;

    open spec fn view(&self) -> AuditView {
        AuditView {
            log_id: self.log_id@,
            timestamp: self.timestamp,
            user_id: opt_text(self.user_id),
            action: self.action@,
            resource: self.resource@,
            result: self.result,
            client_ip: self.client_ip@,
            user_agent: self.user_agent@,
            additional_data: self.additional_data.map().map_values(|s: String| s@),
        }
    }
}

impl AuditLogEntry {
    /// A copy of the entry.
    pub fn duplicate(&self) -> (r: Self)
        ensures
            r@ == self@,
    {
        AuditLogEntry {
            log_id: self.log_id.clone(),
            timestamp: self.timestamp,
            user_id: crate::broker::message::clone_opt_string(&self.user_id),
            action: self.action.clone(),
            resource: self.resource.clone(),
            result: self.result,
            client_ip: self.client_ip.clone(),
            user_agent: self.user_agent.clone(),
            additional_data: self.additional_data.duplicate_strings(),
        }
    }
}

/// The most audit log entries kept.
pub const MAX_AUDIT_LOGS: usize = 10000;

/// `e` records, at `now`, `action` on `resource` by `user_id` with `result`,
/// from the local client, with the message (if not empty) as its data.
pub open spec fn records(e: AuditView, user_id: Option<Seq<char>>, action: Seq<char>, resource: Seq<char>, result: AuditResult, message: Seq<char>, now: Timestamp) -> bool {
    &&& exists|h: u64| e.log_id == "log_"@ + hex(h as nat)
    &&& e.timestamp == now
    &&& e.user_id == user_id
    &&& e.action == action
    &&& e.resource == resource
    &&& e.result == result
    &&& e.client_ip == "127.0.0.1"@
    &&& e.user_agent == "Unknown"@
    &&& e.additional_data == if message.len() == 0 {
        Map::<Seq<char>, Seq<char>>::empty()
    } else {
        Map::<Seq<char>, Seq<char>>::empty().insert("message"@, message)
    }
}

/// The log after appending `e`: the oldest entries go once there are more
/// than the most kept.
pub open spec fn appended(logs: Seq<AuditView>, e: AuditView) -> Seq<AuditView> {
    let l = logs.push(e);
    if l.len() > MAX_AUDIT_LOGS {
        l.skip(l.len() - MAX_AUDIT_LOGS)
    } else {
        l
    }
}

/// The role has the one permission given: the actions on the resource,
/// without conditions.
pub open spec fn grants_only(r: Role, resource: Seq<char>, actions: Seq<Action>) -> bool {
    &&& r.permissions@.len() == 1
    &&& r.permissions@[0].resource@ == resource
    &&& r.permissions@[0].actions@ == actions
    &&& r.permissions@[0].conditions@.len() == 0
}

/// Some role of `roles` named by the user grants `action` on `resource`.
pub open spec fn permitted(roles: Map<Seq<char>, Role>, user_roles: Seq<String>, resource: Seq<char>, action: Action) -> bool {
    exists|i: int, j: int|
        #![trigger user_roles[i], roles[user_roles[i]@].permissions@[j]]
        0 <= i < user_roles.len() && roles.contains_key(user_roles[i]@) && 0 <= j < roles[user_roles[i]@].permissions@.len()
            && resource_matches(roles[user_roles[i]@].permissions@[j].resource@, resource)
            && roles[user_roles[i]@].permissions@[j].actions@.contains(action)
}

/// How patterns name resources: every pattern names the resource it spells,
/// `*` names every resource, and a pattern other than `*` names no other
/// resource.
pub proof fn lemma_pattern_names(pattern: Seq<char>, resource: Seq<char>)
    ensures
        resource_matches(pattern, pattern),
        resource_matches("*"@, resource),
        pattern != "*"@ && pattern != resource ==> !resource_matches(pattern, resource),
{
}

/// A permission grants what it names: when a role the user holds has a
/// permission for resource `resource` (or for `*`) that lists `action`,
/// the user is permitted `action` on `resource`.
pub proof fn lemma_permission_grants(roles: Map<Seq<char>, Role>, user_roles: Seq<String>, resource: Seq<char>, action: Action, i: int, j: int)
    requires
        0 <= i < user_roles.len(),
        roles.contains_key(user_roles[i]@),
        0 <= j < roles[user_roles[i]@].permissions@.len(),
        roles[user_roles[i]@].permissions@[j].resource@ == resource || roles[user_roles[i]@].permissions@[j].resource@ == "*"@,
        roles[user_roles[i]@].permissions@[j].actions@.contains(action),
    ensures
        permitted(roles, user_roles, resource, action),
{
    lemma_pattern_names(resource, resource);
    lemma_pattern_names(roles[user_roles[i]@].permissions@[j].resource@, resource);
}

/// Nothing else grants: when no role the user holds has a permission
/// listing `action` for `resource` or for `*`, the user is not permitted.
pub proof fn lemma_only_permissions_grant(roles: Map<Seq<char>, Role>, user_roles: Seq<String>, resource: Seq<char>, action: Action)
    requires
        forall|i: int, j: int|
            #![trigger user_roles[i], roles[user_roles[i]@].permissions@[j]]
            0 <= i < user_roles.len() && roles.contains_key(user_roles[i]@) && 0 <= j < roles[user_roles[i]@].permissions@.len()
                && roles[user_roles[i]@].permissions@[j].actions@.contains(action)
                ==> roles[user_roles[i]@].permissions@[j].resource@ != resource && roles[user_roles[i]@].permissions@[j].resource@ != "*"@,
    ensures
        !permitted(roles, user_roles, resource, action),
{
}

/// What decrypting `e` gives: its data, when the key it names exists.
pub open spec fn opened(m: &SecurityManager, e: EncryptedData) -> Option<Seq<u8>> {
    if m.key_algorithms().contains_key(e.key_id@) {
        Some(e.data@)
    } else {
        None
    }
}

/// Decrypting what was encrypted gives back the data, whenever the default
/// key exists (encryption labels everything with it).
pub proof fn lemma_decrypt_encrypted(m: &SecurityManager, e: EncryptedData, algorithm: EncryptionAlgorithm, data: Seq<u8>)
    requires
        sealed(e, algorithm, data),
        m.key_algorithms().contains_key("default"@),
    ensures
        opened(m, e) == Some(data),
{
}

/// The count of failed logins of `id` after one more.
pub open spec fn bumped_count(failed: Map<Seq<char>, u32>, id: Seq<char>) -> u32 {
    ((if failed.contains_key(id) {
        failed[id] as int
    } else {
        0
    }) + 1) as u32
}

/// The users after a failed login of `id` brought its count to `count`: at
/// the maximum the account is locked until `until`.
pub open spec fn locked_users(users: Map<Seq<char>, User>, id: Seq<char>, count: u32, max: u32, until: Timestamp) -> Map<Seq<char>, User> {
    if count >= max && users.contains_key(id) {
        users.insert(id, User { locked_until: Some(until), ..users[id] })
    } else {
        users
    }
}

/// The users after `id` logged in at `now`.
pub open spec fn logged_in_users(users: Map<Seq<char>, User>, id: Seq<char>, now: Timestamp) -> Map<Seq<char>, User> {
    if users.contains_key(id) {
        users.insert(id, User { last_login: Some(now), ..users[id] })
    } else {
        users
    }
}

/// The authentication result says this, with no session.
pub open spec fn outcome(r: AuthenticationResult, success: bool, user_id: Option<Seq<char>>, message: Seq<char>) -> bool {
    &&& r.success == success
    &&& opt_text(r.user_id) == user_id
    &&& r.session is None
    &&& r.message@ == message
}

/// No permission among the first `i` roles named by the user grants
/// `action` on `resource`.
pub open spec fn none_granted(roles: Map<Seq<char>, Role>, user_roles: Seq<String>, resource: Seq<char>, action: Action, i: int) -> bool {
    forall|a: int, b: int|
        #![trigger user_roles[a], roles[user_roles[a]@].permissions@[b]]
        0 <= a < i && roles.contains_key(user_roles[a]@) && 0 <= b < roles[user_roles[a]@].permissions@.len()
            ==> !(resource_matches(roles[user_roles[a]@].permissions@[b].resource@, resource)
            && roles[user_roles[a]@].permissions@[b].actions@.contains(action))
}

/// The session holds these fields, with no data.
pub open spec fn session_is(s: Session, user_id: Seq<char>, client_ip: Seq<char>, user_agent: Seq<char>, now: Timestamp, expires: Timestamp) -> bool {
    &&& s.user_id@ == user_id
    &&& s.created_at == now
    &&& s.expires_at == expires
    &&& s.last_activity == now
    &&& s.client_ip@ == client_ip
    &&& s.user_agent@ == user_agent
    &&& s.data.map() == Map::<Seq<char>, String>::empty()
    &&& s.data.wf()
}

/// Whether `a` is among the actions.
pub fn contains_action(actions: &Vec<Action>, a: Action) -> (b: bool)
    ensures
        b == actions@.contains(a),
{
    let mut i: usize = 0;
    while i < actions.len()
        invariant
            i <= actions@.len(),
            forall|j: int| 0 <= j < i ==> actions@[j] != a,
        decreases actions.len() - i,
    {
        if actions[i] == a {
            assert(actions@[i as int] == a);
            return true;
        }
        i = i + 1;
    }
    false
}

/// An account locked by its failed logins refuses logins until the lockout
/// ends: once a failed login brings the count to the maximum, the account
/// is locked at every moment before the lockout duration has passed.
pub proof fn lemma_lockout_refuses(users: Map<Seq<char>, User>, id: Seq<char>, count: u32, max: u32, now: Timestamp, lockout: Duration, later: Timestamp)
    requires
        users.contains_key(id),
        count >= max,
        now.0 + duration_nanos(lockout) <= u64::MAX,
        later.0 < now.0 + duration_nanos(lockout),
    ensures
        locked_at(locked_users(users, id, count, max, after(now, lockout))[id], later),
{
}

/// Security manager.
pub struct SecurityManager {
    config: SecurityConfig,
    users: NameMap<User>,
    roles: NameMap<Role>,
    sessions: NameMap<Session>,
    audit_logs: Vec<AuditLogEntry>,
    encryption_keys: NameMap<EncryptionKey>,
    failed_attempts: NameMap<u32>,
    tls_context: Option<TlsContext>,
    jwt_secret: Option<String>,
}

impl SecurityManager {
    /// The configuration.
    pub closed spec fn spec_config(&self) -> SecurityConfig {
        self.config
    }

    /// The users, by ID.
    pub closed spec fn users(&self) -> Map<Seq<char>, User> {
        self.users.map()
    }

    /// The roles, by ID.
    pub closed spec fn roles(&self) -> Map<Seq<char>, Role> {
        self.roles.map()
    }

    /// The sessions, by ID.
    pub closed spec fn sessions(&self) -> Map<Seq<char>, Session> {
        self.sessions.map()
    }

    /// The audit log, oldest first.
    pub closed spec fn logs(&self) -> Seq<AuditView> {
        self.audit_logs@.map_values(|e: AuditLogEntry| e@)
    }

    /// The algorithm of each encryption key, by key ID.
    pub closed spec fn key_algorithms(&self) -> Map<Seq<char>, EncryptionAlgorithm> {
        self.encryption_keys.map().map_values(|k: EncryptionKey| k.algorithm)
    }

    /// The failed login attempts, by user ID.
    pub closed spec fn failed(&self) -> Map<Seq<char>, u32> {
        self.failed_attempts.map()
    }

    /// Whether a TLS context is set.
    pub closed spec fn has_tls(&self) -> bool {
        self.tls_context is Some
    }

    /// The JWT secret, if set.
    pub closed spec fn jwt(&self) -> Option<Seq<char>> {
        opt_text(self.jwt_secret)
    }

    /// The manager's invariant: the maps have no repeated names and the
    /// audit log holds at most the most kept.
    pub closed spec fn wf(&self) -> bool {
        &&& self.users.wf()
        &&& self.roles.wf()
        &&& self.sessions.wf()
        &&& self.encryption_keys.wf()
        &&& self.failed_attempts.wf()
        &&& self.audit_logs@.len() <= MAX_AUDIT_LOGS
    }

    /// The clock can run `d` past `now` without passing the largest
    /// timestamp, for every duration the manager adds.
    pub open spec fn clock_ok(&self, now: Timestamp) -> bool {
        &&& now.0 + duration_nanos(self.spec_config().key_rotation_interval) <= u64::MAX
        &&& now.0 + duration_nanos(self.spec_config().session_timeout) <= u64::MAX
        &&& now.0 + duration_nanos(self.spec_config().lockout_duration) <= u64::MAX
        &&& now.0 + 3600 * 1_000_000_000 <= u64::MAX
    }

    /// A manager with nothing set up.
    pub fn new(config: SecurityConfig) -> (m: Self)
        ensures
            m.wf(),
            m.spec_config() == config,
            m.users() == Map::<Seq<char>, User>::empty(),
            m.roles() == Map::<Seq<char>, Role>::empty(),
            m.sessions() == Map::<Seq<char>, Session>::empty(),
            m.logs().len() == 0,
            m.key_algorithms() == Map::<Seq<char>, EncryptionAlgorithm>::empty(),
            m.failed() == Map::<Seq<char>, u32>::empty(),
            !m.has_tls(),
            m.jwt() is None,
    {
        let m = SecurityManager {
            config,
            users: NameMap::new(),
            roles: NameMap::new(),
            sessions: NameMap::new(),
            audit_logs: Vec::new(),
            encryption_keys: NameMap::new(),
            failed_attempts: NameMap::new(),
            tls_context: None,
            jwt_secret: None,
        };
        assert(m.logs() =~= Seq::<AuditView>::empty());
        assert(m.key_algorithms() =~= Map::<Seq<char>, EncryptionAlgorithm>::empty());
        m
    }

    /// The certificate, key and CA files to read, when TLS is on and both
    /// the certificate and the key file are configured.
    pub fn tls_files(&self) -> (r: Option<(String, String, Option<String>)>)
        ensures
            r is Some <==> self.spec_config().enable_tls && self.spec_config().cert_file is Some && self.spec_config().key_file is Some,
            r matches Some(f) ==> Some(f.0) == self.spec_config().cert_file && Some(f.1) == self.spec_config().key_file && f.2 == self.spec_config().ca_cert_file,
    {
        if !self.config.enable_tls {
            return None;
        }
        match (&self.config.cert_file, &self.config.key_file) {
            (Some(c), Some(k)) => Some((c.clone(), k.clone(), crate::broker::message::clone_opt_string(&self.config.ca_cert_file))),
            _ => None,
        }
    }

    /// Append an audit entry at `now` (see `records`), dropping the oldest
    /// once the log is full.
    pub fn log_audit_event_at(&mut self, user_id: Option<String>, action: &str, resource: &str, result: AuditResult, message: &str, now: Timestamp)
        requires
            old(self).wf(),
        ensures
            final(self).wf(),
            final(self).logs().len() > 0,
            records(final(self).logs().last(), opt_text(user_id), action@, resource@, result, message@, now),
            final(self).logs() == appended(old(self).logs(), final(self).logs().last()),
            final(self).spec_config() == old(self).spec_config(),
            final(self).users() == old(self).users(),
            final(self).roles() == old(self).roles(),
            final(self).sessions() == old(self).sessions(),
            final(self).key_algorithms() == old(self).key_algorithms(),
            final(self).failed() == old(self).failed(),
            final(self).has_tls() == old(self).has_tls(),
            final(self).jwt() == old(self).jwt(),
    {
        let mut data: NameMap<String> = NameMap::new();
        if !message.is_empty() {
            proof {
                reveal_strlit("message");
            }
            data.insert("message".to_string(), message.to_string());
        }
        proof {
            reveal_strlit("127.0.0.1");
            reveal_strlit("Unknown");
        }
        let entry = AuditLogEntry {
            log_id: self.generate_log_id(),
            timestamp: now,
            user_id,
            action: action.to_string(),
            resource: resource.to_string(),
            result,
            client_ip: "127.0.0.1".to_string(),
            user_agent: "Unknown".to_string(),
            additional_data: data,
        };
        let ghost e = entry@;
        assert(e.additional_data =~= if message@.len() == 0 {
            Map::<Seq<char>, Seq<char>>::empty()
        } else {
            Map::<Seq<char>, Seq<char>>::empty().insert("message"@, message@)
        });
        let ghost before = self.logs();
        self.audit_logs.push(entry);
        assert(self.logs() =~= before.push(e));
        if self.audit_logs.len() > MAX_AUDIT_LOGS {
            let _ = self.audit_logs.remove(0);
            assert(self.logs() =~= before.push(e).skip(1));
        }
    }

    /// The newest `limit` audit entries (1000 by default), newest first.
    pub fn get_audit_logs(&self, limit: Option<usize>) -> (r: Result<Vec<AuditLogEntry>>)
        ensures
            r matches Ok(v) && {
                let n = self.logs().len();
                let l: nat = match limit {
                    Some(l) => l as nat,
                    None => 1000,
                };
                &&& v@.len() == if l < n { l } else { n }
                &&& forall|k: int| 0 <= k < v@.len() ==> (#[trigger] v@[k])@ == self.logs()[n - 1 - k]
            },
    {
        let l = match limit {
            Some(l) => l,
            None => 1000,
        };
        let n = self.audit_logs.len();
        let mut v: Vec<AuditLogEntry> = Vec::new();
        let mut k: usize = 0;
        while k < l && k < n
            invariant
                n == self.audit_logs@.len(),
                k <= n,
                k <= l,
                v@.len() == k,
                forall|j: int| 0 <= j < k ==> (#[trigger] v@[j])@ == self.logs()[n - 1 - j],
            decreases n - k,
        {
            v.push(self.audit_logs[n - 1 - k].duplicate());
            k = k + 1;
        }
        Ok(v)
    }

    /// Install the default encryption key, made at `now` for the configured
    /// algorithm and expiring after the key rotation interval.
    pub fn initialize_encryption_keys(&mut self, now: Timestamp) -> (r: Result<()>)
        requires
            old(self).wf(),
        ensures
            final(self).wf(),
            r is Ok,
            final(self).key_algorithms() == old(self).key_algorithms().insert("default"@, old(self).spec_config().encryption_algorithm),
            final(self).spec_config() == old(self).spec_config(),
            final(self).users() == old(self).users(),
            final(self).roles() == old(self).roles(),
            final(self).sessions() == old(self).sessions(),
            final(self).logs() == old(self).logs(),
            final(self).failed() == old(self).failed(),
            final(self).has_tls() == old(self).has_tls(),
            final(self).jwt() == old(self).jwt(),
    {
        proof {
            reveal_strlit("default");
        }
        let key_data = match self.generate_encryption_key(&self.config.encryption_algorithm) {
            Ok(k) => k,
            Err(e) => return Err(e),
        };
        let key = EncryptionKey {
            key_id: "default".to_string(),
            key_data,
            algorithm: self.config.encryption_algorithm,
            created_at: now,
            expires_at: add_duration(now, &self.config.key_rotation_interval),
        };
        self.encryption_keys.insert("default".to_string(), key);
        assert(self.key_algorithms() =~= old(self).key_algorithms().insert("default"@, self.config.encryption_algorithm));
        Ok(())
    }

    /// Install the default roles, made at `now`: `admin`, which may read,
    /// write, delete and administer every resource, and `user`, which may
    /// read and write `topics`.
    pub fn load_default_roles(&mut self, now: Timestamp) -> (r: Result<()>)
        requires
            old(self).wf(),
        ensures
            final(self).wf(),
            r is Ok,
            final(self).roles().dom() == old(self).roles().dom().insert("admin"@).insert("user"@),
            forall|k: Seq<char>| k != "admin"@ && k != "user"@ && #[trigger] old(self).roles().contains_key(k) ==> final(self).roles()[k] == old(self).roles()[k],
            grants_only(final(self).roles()["admin"@], "*"@, seq![Action::Read, Action::Write, Action::Delete, Action::Admin]),
            grants_only(final(self).roles()["user"@], "topics"@, seq![Action::Read, Action::Write]),
            final(self).roles()["admin"@].role_id@ == "admin"@,
            final(self).roles()["user"@].role_id@ == "user"@,
            final(self).spec_config() == old(self).spec_config(),
            final(self).users() == old(self).users(),
            final(self).sessions() == old(self).sessions(),
            final(self).logs() == old(self).logs(),
            final(self).key_algorithms() == old(self).key_algorithms(),
            final(self).failed() == old(self).failed(),
            final(self).has_tls() == old(self).has_tls(),
            final(self).jwt() == old(self).jwt(),
    {
        proof {
            reveal_strlit("admin");
            reveal_strlit("user");
            reveal_strlit("*");
            reveal_strlit("topics");
        }
        let admin_role = Role {
            role_id: "admin".to_string(),
            name: "Administrator".to_string(),
            description: "Full administrative access".to_string(),
            permissions: vec![Permission {
                resource: "*".to_string(),
                actions: vec![Action::Read, Action::Write, Action::Delete, Action::Admin],
                conditions: Vec::new(),
            }],
            created_at: now,
        };
        let user_role = Role {
            role_id: "user".to_string(),
            name: "User".to_string(),
            description: "Standard user access".to_string(),
            permissions: vec![Permission {
                resource: "topics".to_string(),
                actions: vec![Action::Read, Action::Write],
                conditions: Vec::new(),
            }],
            created_at: now,
        };
        assert(admin_role.permissions@[0].actions@ =~= seq![Action::Read, Action::Write, Action::Delete, Action::Admin]);
        assert(user_role.permissions@[0].actions@ =~= seq![Action::Read, Action::Write]);
        assert("admin"@ != "user"@) by {
            assert("admin"@.len() == 5);
            assert("user"@.len() == 4);
        }
        self.roles.insert("admin".to_string(), admin_role);
        self.roles.insert("user".to_string(), user_role);
        assert(self.roles().dom() =~= old(self).roles().dom().insert("admin"@).insert("user"@));
        Ok(())
    }

    /// Set the manager up at `now`: the TLS context read by the caller (when
    /// TLS is on), the JWT secret (for JWT authentication), the default
    /// encryption key (for encryption at rest) and the default roles.
    pub fn initialize_at(&mut self, now: Timestamp, tls: Option<TlsContext>) -> (r: Result<()>)
        requires
            old(self).wf(),
        ensures
            final(self).wf(),
            r is Ok,
            final(self).has_tls() == (old(self).has_tls() || (old(self).spec_config().enable_tls && tls is Some)),
            final(self).jwt() == if old(self).spec_config().auth_method == AuthenticationMethod::Jwt {
                Some("jwt_secret_key"@)
            } else {
                old(self).jwt()
            },
            final(self).key_algorithms() == if old(self).spec_config().enable_encryption_at_rest {
                old(self).key_algorithms().insert("default"@, old(self).spec_config().encryption_algorithm)
            } else {
                old(self).key_algorithms()
            },
            final(self).roles().contains_key("admin"@),
            final(self).roles().contains_key("user"@),
            final(self).spec_config() == old(self).spec_config(),
            final(self).users() == old(self).users(),
            final(self).sessions() == old(self).sessions(),
            final(self).logs() == old(self).logs(),
            final(self).failed() == old(self).failed(),
    {
        if self.config.enable_tls {
            match tls {
                Some(ctx) => {
                    self.tls_context = Some(ctx);
                },
                None => {},
            }
        }
        if self.config.auth_method == AuthenticationMethod::Jwt {
            self.jwt_secret = Some(self.generate_jwt_secret());
        }
        if self.config.enable_encryption_at_rest {
            let _ = self.initialize_encryption_keys(now);
        }
        let _ = self.load_default_roles(now);
        Ok(())
    }

    /// The user with ID `user_id`.
    pub fn get_user(&self, user_id: &str) -> (r: Result<&User>)
        requires
            self.wf(),
        ensures
            match r {
                Ok(u) => self.users().contains_key(user_id@) && *u == self.users()[user_id@],
                Err(e) => !self.users().contains_key(user_id@) && is_storage_error(e, "User not found: "@ + user_id@),
            },
    {
        match self.users.get(user_id) {
            Some(u) => Ok(u),
            None => Err(Error::UserNotFound(user_id.to_string())),
        }
    }

    /// A user named `username`.
    pub fn get_user_by_username(&self, username: &str) -> (r: Result<&User>)
        requires
            self.wf(),
        ensures
            match r {
                Ok(u) => u.username@ == username@ && exists|k: Seq<char>| #[trigger] self.users().contains_key(k) && self.users()[k] == *u,
                Err(e) => (forall|k: Seq<char>| #[trigger] self.users().contains_key(k) ==> self.users()[k].username@ != username@) && is_storage_error(e, "User not found: "@ + username@),
            },
    {
        proof {
            self.users.lemma_seqs();
        }
        let name = username.to_string();
        let n = self.users.len();
        let mut i: usize = 0;
        while i < n
            invariant
                self.users.wf(),
                n == self.users.values_seq().len(),
                n == self.users.keys_seq().len(),
                i <= n,
                name@ == username@,
                forall|j: int| 0 <= j < i ==> (#[trigger] self.users.values_seq()[j]).username@ != username@,
            decreases n - i,
        {
            let u = self.users.value_at(i);
            if u.username == name {
                proof {
                    self.users.lemma_seqs();
                    let k = self.users.keys_seq()[i as int];
                    assert(self.users().contains_key(k) && self.users()[k] == *u);
                }
                return Ok(u);
            }
            i = i + 1;
        }
        proof {
            self.users.lemma_seqs();
            assert forall|k: Seq<char>| #[trigger] self.users().contains_key(k) implies self.users()[k].username@ != username@ by {
                let j = choose|j: int| 0 <= j < self.users.keys_seq().len() && self.users.keys_seq()[j] == k;
                assert(self.users.values_seq()[j].username@ != username@);
            }
        }
        Err(Error::UserNotFound(name))
    }

    /// The role named `role_name`, if there is one.
    pub fn get_role(&self, role_name: &str) -> (r: Result<Option<&Role>>)
        requires
            self.wf(),
        ensures
            r matches Ok(o) && match o {
                Some(role) => self.roles().contains_key(role_name@) && *role == self.roles()[role_name@],
                None => !self.roles().contains_key(role_name@),
            },
    {
        Ok(self.roles.get(role_name))
    }

    /// The encryption key with ID `key_id`.
    pub fn get_encryption_key(&self, key_id: &str) -> (r: Result<&EncryptionKey>)
        requires
            self.wf(),
        ensures
            match r {
                Ok(k) => self.key_algorithms().contains_key(key_id@) && k.algorithm == self.key_algorithms()[key_id@],
                Err(e) => !self.key_algorithms().contains_key(key_id@) && is_storage_error(e, "Encryption key not found: "@ + key_id@),
            },
    {
        match self.encryption_keys.get(key_id) {
            Some(k) => Ok(k),
            None => Err(Error::EncryptionKeyNotFound(key_id.to_string())),
        }
    }

    /// Encrypt `data` with the key `key_id` (the default key if none is
    /// given), which must exist: the result carries the data as it is,
    /// labelled with the default key (see `sealed`).
    pub fn encrypt_data(&self, data: &[u8], key_id: Option<&str>) -> (r: Result<EncryptedData>)
        requires
            self.wf(),
        ensures
            ({
                let id = match key_id {
                    Some(k) => k@,
                    None => "default"@,
                };
                match r {
                    Ok(e) => self.key_algorithms().contains_key(id) && sealed(e, self.key_algorithms()[id], data@),
                    Err(err) => !self.key_algorithms().contains_key(id) && is_storage_error(err, "Encryption key not found: "@ + id),
                }
            }),
    {
        proof {
            reveal_strlit("default");
        }
        let id = match key_id {
            Some(k) => k,
            None => "default",
        };
        let key = match self.get_encryption_key(id) {
            Ok(k) => k,
            Err(e) => return Err(e),
        };
        let (nonce, tag) = match key.algorithm {
            EncryptionAlgorithm::Aes256Gcm => (zero_bytes(12), zero_bytes(16)),
            EncryptionAlgorithm::Aes256Cbc => (zero_bytes(16), Vec::new()),
            EncryptionAlgorithm::ChaCha20Poly1305 => (zero_bytes(12), zero_bytes(16)),
            EncryptionAlgorithm::XChaCha20Poly1305 => (zero_bytes(24), zero_bytes(16)),
        };
        assert(key.algorithm == EncryptionAlgorithm::Aes256Cbc ==> tag@ =~= zeros(0));
        Ok(EncryptedData {
            key_id: "default".to_string(),
            algorithm: key.algorithm,
            data: copy_bytes(data),
            nonce,
            tag,
        })
    }

    /// Decrypt: the data as it is, when the key it names exists.
    pub fn decrypt_data(&self, encrypted_data: &EncryptedData) -> (r: Result<Vec<u8>>)
        requires
            self.wf(),
        ensures
            match r {
                Ok(v) => opened(self, *encrypted_data) == Some(v@),
                Err(e) => opened(self, *encrypted_data) is None && is_storage_error(e, "Encryption key not found: "@ + encrypted_data.key_id@),
            },
    {
        match self.get_encryption_key(encrypted_data.key_id.as_str()) {
            Ok(_) => Ok(copy_bytes(encrypted_data.data.as_slice())),
            Err(e) => Err(e),
        }
    }

    /// Forget the failed logins of `user_id`.
    pub fn reset_failed_attempts(&mut self, user_id: &str)
        requires
            old(self).wf(),
        ensures
            final(self).wf(),
            final(self).failed() == old(self).failed().remove(user_id@),
            final(self).spec_config() == old(self).spec_config(),
            final(self).users() == old(self).users(),
            final(self).roles() == old(self).roles(),
            final(self).sessions() == old(self).sessions(),
            final(self).logs() == old(self).logs(),
            final(self).key_algorithms() == old(self).key_algorithms(),
            final(self).has_tls() == old(self).has_tls(),
            final(self).jwt() == old(self).jwt(),
    {
        let _ = self.failed_attempts.remove(user_id);
    }

    /// Count one more failed login of `user_id` at `now`; at the maximum the
    /// account is locked for the lockout duration.
    pub fn increment_failed_attempts(&mut self, user_id: &str, now: Timestamp)
        requires
            old(self).wf(),
            old(self).clock_ok(now),
            old(self).failed().contains_key(user_id@) ==> old(self).failed()[user_id@] < u32::MAX,
        ensures
            final(self).wf(),
            final(self).failed() == old(self).failed().insert(user_id@, bumped_count(old(self).failed(), user_id@)),
            final(self).users() == locked_users(old(self).users(), user_id@, bumped_count(old(self).failed(), user_id@), old(self).spec_config().max_failed_attempts, after(now, old(self).spec_config().lockout_duration)),
            final(self).spec_config() == old(self).spec_config(),
            final(self).roles() == old(self).roles(),
            final(self).sessions() == old(self).sessions(),
            final(self).logs() == old(self).logs(),
            final(self).key_algorithms() == old(self).key_algorithms(),
            final(self).has_tls() == old(self).has_tls(),
            final(self).jwt() == old(self).jwt(),
    {
        let count = match self.failed_attempts.get(user_id) {
            Some(c) => *c + 1,
            None => 1,
        };
        self.failed_attempts.insert(user_id.to_string(), count);
        if count >= self.config.max_failed_attempts {
            match self.users.remove(user_id) {
                Some(mut u) => {
                    u.locked_until = Some(add_duration(now, &self.config.lockout_duration));
                    self.users.insert(user_id.to_string(), u);
                    assert(self.users() =~= locked_users(old(self).users(), user_id@, count, self.config.max_failed_attempts, after(now, self.config.lockout_duration)));
                },
                None => {
                    assert(self.users.map() =~= old(self).users.map());
                },
            }
        }
    }

    /// Record that `user_id` logged in at `now`.
    pub fn update_last_login(&mut self, user_id: &str, now: Timestamp)
        requires
            old(self).wf(),
        ensures
            final(self).wf(),
            final(self).users() == logged_in_users(old(self).users(), user_id@, now),
            final(self).failed() == old(self).failed(),
            final(self).spec_config() == old(self).spec_config(),
            final(self).roles() == old(self).roles(),
            final(self).sessions() == old(self).sessions(),
            final(self).logs() == old(self).logs(),
            final(self).key_algorithms() == old(self).key_algorithms(),
            final(self).has_tls() == old(self).has_tls(),
            final(self).jwt() == old(self).jwt(),
    {
        match self.users.remove(user_id) {
            Some(mut u) => {
                u.last_login = Some(now);
                self.users.insert(user_id.to_string(), u);
                assert(self.users() =~= logged_in_users(old(self).users(), user_id@, now));
            },
            None => {
                assert(self.users.map() =~= old(self).users.map());
            },
        }
    }

    /// Whether the conditions hold. No kind of condition restricts access
    /// yet, so they always do.
    pub fn check_conditions(&self, conditions: &[Condition], user: &User, resource: &str) -> (r: Result<bool>)
        ensures
            r matches Ok(b) && b,
    {
        let mut i: usize = 0;
        while i < conditions.len()
            invariant
                i <= conditions@.len(),
            decreases conditions.len() - i,
        {
            match conditions[i].condition_type {
                ConditionType::TimeBased => {},
                ConditionType::IpBased => {},
                ConditionType::ResourceBased => {},
                ConditionType::Custom => {},
            }
            i = i + 1;
        }
        Ok(true)
    }

    /// Whether some role of the user grants `action` on `resource`.
    pub fn check_permission(&self, user: &User, resource: &str, action: Action) -> (r: Result<bool>)
        requires
            self.wf(),
        ensures
            r matches Ok(b) && b == permitted(self.roles(), user.roles@, resource@, action),
    {
        let mut i: usize = 0;
        while i < user.roles.len()
            invariant
                self.wf(),
                i <= user.roles@.len(),
                none_granted(self.roles(), user.roles@, resource@, action, i as int),
            decreases user.roles.len() - i,
        {
            match self.get_role(user.roles[i].as_str()) {
                Ok(Some(role)) => {
                    let mut j: usize = 0;
                    while j < role.permissions.len()
                        invariant
                            self.wf(),
                            i < user.roles@.len(),
                            self.roles().contains_key(user.roles@[i as int]@),
                            *role == self.roles()[user.roles@[i as int]@],
                            j <= role.permissions@.len(),
                            none_granted(self.roles(), user.roles@, resource@, action, i as int),
                            forall|b: int| 0 <= b < j ==> !(resource_matches(#[trigger] role.permissions@[b].resource@, resource@) && role.permissions@[b].actions@.contains(action)),
                        decreases role.permissions.len() - j,
                    {
                        let p = &role.permissions[j];
                        if self.matches_resource(p.resource.as_str(), resource) && contains_action(&p.actions, action) {
                            match self.check_conditions(p.conditions.as_slice(), user, resource) {
                                Ok(true) => {
                                    assert(user.roles@[i as int] == user.roles@[i as int]);
                                    assert(self.roles()[user.roles@[i as int]@].permissions@[j as int] == *p);
                                    return Ok(true);
                                },
                                Ok(false) => {},
                                Err(e) => return Err(e),
                            }
                        }
                        j = j + 1;
                    }
                    assert(none_granted(self.roles(), user.roles@, resource@, action, i + 1)) by {
                        assert forall|a: int, b: int|
                            0 <= a < i + 1 && self.roles().contains_key(user.roles@[a]@) && 0 <= b < self.roles()[user.roles@[a]@].permissions@.len()
                            implies !(resource_matches(#[trigger] self.roles()[user.roles@[a]@].permissions@[b].resource@, resource@)
                            && self.roles()[user.roles@[a]@].permissions@[b].actions@.contains(action)) by {
                            if a == i {
                                assert(self.roles()[user.roles@[a]@].permissions@[b] == role.permissions@[b]);
                            }
                        }
                    }
                },
                Ok(None) => {},
                Err(e) => return Err(e),
            }
            i = i + 1;
        }
        Ok(false)
    }

    /// Decide at `now` whether `user_id` may take `action` on `resource`,
    /// and log the decision: an inactive account is denied; otherwise the
    /// user's roles decide (see `permitted`). Fails for an unknown user.
    pub fn authorize_at(&mut self, user_id: &str, resource: &str, action: Action, now: Timestamp) -> (r: Result<bool>)
        requires
            old(self).wf(),
        ensures
            final(self).wf(),
            final(self).spec_config() == old(self).spec_config(),
            final(self).users() == old(self).users(),
            final(self).roles() == old(self).roles(),
            final(self).sessions() == old(self).sessions(),
            final(self).key_algorithms() == old(self).key_algorithms(),
            final(self).failed() == old(self).failed(),
            final(self).has_tls() == old(self).has_tls(),
            final(self).jwt() == old(self).jwt(),
            if !old(self).users().contains_key(user_id@) {
                &&& r matches Err(e) && is_storage_error(e, "User not found: "@ + user_id@)
                &&& final(self).logs() == old(self).logs()
            } else {
                let u = old(self).users()[user_id@];
                let allowed = u.status == AccountStatus::Active && permitted(old(self).roles(), u.roles@, resource@, action);
                &&& r == Ok::<bool, Error>(allowed)
                &&& final(self).logs().len() > 0
                &&& final(self).logs() == appended(old(self).logs(), final(self).logs().last())
                &&& records(
                    final(self).logs().last(),
                    Some(user_id@),
                    "authorize"@,
                    resource@,
                    if allowed { AuditResult::Success } else { AuditResult::Denied },
                    if u.status != AccountStatus::Active { "User account not active"@ } else { ""@ },
                    now,
                )
            },
    {
        let (active, has) = match self.get_user(user_id) {
            Ok(user) => {
                if user.status != AccountStatus::Active {
                    (false, false)
                } else {
                    match self.check_permission(user, resource, action) {
                        Ok(b) => (true, b),
                        Err(e) => return Err(e),
                    }
                }
            },
            Err(e) => return Err(e),
        };
        proof {
            reveal_strlit("");
        }
        if !active {
            self.log_audit_event_at(Some(user_id.to_string()), "authorize", resource, AuditResult::Denied, "User account not active", now);
            return Ok(false);
        }
        let result = if has {
            AuditResult::Success
        } else {
            AuditResult::Denied
        };
        self.log_audit_event_at(Some(user_id.to_string()), "authorize", resource, result, "", now);
        Ok(has)
    }

    /// Authenticate by username and password at `now`. Both must be given
    /// and a user must have the username. A locked account is refused; a
    /// good password clears the failed logins and records the login; a bad
    /// one counts as a failed login.
    pub fn authenticate_username_password_at(&mut self, credentials: &Credentials, now: Timestamp) -> (r: Result<AuthenticationResult>)
        requires
            old(self).wf(),
            old(self).clock_ok(now),
            forall|k: Seq<char>| #[trigger] old(self).failed().contains_key(k) ==> old(self).failed()[k] < u32::MAX,
        ensures
            final(self).wf(),
            final(self).spec_config() == old(self).spec_config(),
            final(self).roles() == old(self).roles(),
            final(self).sessions() == old(self).sessions(),
            final(self).logs() == old(self).logs(),
            final(self).key_algorithms() == old(self).key_algorithms(),
            final(self).has_tls() == old(self).has_tls(),
            final(self).jwt() == old(self).jwt(),
            match (credentials.username, credentials.password) {
                (Some(name), Some(password)) => if forall|k: Seq<char>| #[trigger] old(self).users().contains_key(k) ==> old(self).users()[k].username@ != name@ {
                    &&& r matches Err(e) && is_storage_error(e, "User not found: "@ + name@)
                    &&& final(self).users() == old(self).users()
                    &&& final(self).failed() == old(self).failed()
                } else {
                    exists|k: Seq<char>| #[trigger] old(self).users().contains_key(k) && old(self).users()[k].username@ == name@ && {
                        let u = old(self).users()[k];
                        if locked_at(u, now) {
                            &&& r matches Ok(res) && outcome(res, false, None, "Account is locked"@)
                            &&& final(self).users() == old(self).users()
                            &&& final(self).failed() == old(self).failed()
                        } else if password_ok(password@, u.username@) {
                            &&& r matches Ok(res) && outcome(res, true, Some(u.user_id@), "Authentication successful"@)
                            &&& final(self).failed() == old(self).failed().remove(u.user_id@)
                            &&& final(self).users() == logged_in_users(old(self).users(), u.user_id@, now)
                        } else {
                            &&& r matches Ok(res) && outcome(res, false, None, "Invalid credentials"@)
                            &&& final(self).failed() == old(self).failed().insert(u.user_id@, bumped_count(old(self).failed(), u.user_id@))
                            &&& final(self).users() == locked_users(old(self).users(), u.user_id@, bumped_count(old(self).failed(), u.user_id@), old(self).spec_config().max_failed_attempts, after(now, old(self).spec_config().lockout_duration))
                        }
                    }
                },
                _ => {
                    &&& r matches Err(e) && is_storage_error(e, "Invalid credentials"@)
                    &&& final(self).users() == old(self).users()
                    &&& final(self).failed() == old(self).failed()
                },
            },
    {
        let name = match &credentials.username {
            Some(n) => n,
            None => return Err(Error::InvalidCredentials()),
        };
        let password = match &credentials.password {
            Some(p) => p,
            None => return Err(Error::InvalidCredentials()),
        };
        let (user_id, username, locked_until) = match self.get_user_by_username(name.as_str()) {
            Ok(u) => (u.user_id.clone(), u.username.clone(), u.locked_until),
            Err(e) => return Err(e),
        };
        let ghost k = choose|k: Seq<char>| #[trigger] old(self).users().contains_key(k) && old(self).users()[k].user_id@ == user_id@ && old(self).users()[k].username@ == username@ && old(self).users()[k].locked_until == locked_until && old(self).users()[k].username@ == name@;
        proof {
            reveal_strlit("Account is locked");
            reveal_strlit("Authentication successful");
            reveal_strlit("Invalid credentials");
        }
        match locked_until {
            Some(t) => {
                if now.0 < t.0 {
                    return Ok(AuthenticationResult {
                        success: false,
                        user_id: None,
                        session: None,
                        message: "Account is locked".to_string(),
                    });
                }
            },
            None => {},
        }
        if self.verify_password(password.as_str(), username.as_str()) {
            self.reset_failed_attempts(user_id.as_str());
            self.update_last_login(user_id.as_str(), now);
            Ok(AuthenticationResult {
                success: true,
                user_id: Some(user_id),
                session: None,
                message: "Authentication successful".to_string(),
            })
        } else {
            self.increment_failed_attempts(user_id.as_str(), now);
            Ok(AuthenticationResult {
                success: false,
                user_id: None,
                session: None,
                message: "Invalid credentials".to_string(),
            })
        }
    }

    /// Authenticate by JWT at `now`: a token must be given, and stands for
    /// the user of its claims.
    pub fn authenticate_jwt_at(&self, credentials: &Credentials, now: Timestamp) -> (r: Result<AuthenticationResult>)
        requires
            now.0 + 3600 * 1_000_000_000 <= u64::MAX,
        ensures
            match credentials.token {
                Some(_) => r matches Ok(res) && outcome(res, true, Some("user123"@), "JWT authentication successful"@),
                None => r matches Err(e) && is_storage_error(e, "Invalid credentials"@),
            },
    {
        let token = match &credentials.token {
            Some(t) => t,
            None => return Err(Error::InvalidCredentials()),
        };
        let claims = match self.verify_jwt_token(token.as_str(), now) {
            Ok(c) => c,
            Err(e) => return Err(e),
        };
        proof {
            reveal_strlit("JWT authentication successful");
        }
        Ok(AuthenticationResult {
            success: true,
            user_id: Some(claims.user_id),
            session: None,
            message: "JWT authentication successful".to_string(),
        })
    }

    /// Authenticate at `now` by the method the credentials name: username
    /// and password, or JWT; the other methods are not implemented.
    pub fn authenticate_at(&mut self, credentials: &Credentials, now: Timestamp) -> (r: Result<AuthenticationResult>)
        requires
            old(self).wf(),
            old(self).clock_ok(now),
            forall|k: Seq<char>| #[trigger] old(self).failed().contains_key(k) ==> old(self).failed()[k] < u32::MAX,
        ensures
            final(self).wf(),
            final(self).spec_config() == old(self).spec_config(),
            final(self).roles() == old(self).roles(),
            final(self).sessions() == old(self).sessions(),
            final(self).logs() == old(self).logs(),
            credentials.method != AuthenticationMethod::UsernamePassword ==> final(self).users() == old(self).users() && final(self).failed() == old(self).failed(),
            credentials.method == AuthenticationMethod::Jwt ==> match credentials.token {
                Some(_) => r matches Ok(res) && outcome(res, true, Some("user123"@), "JWT authentication successful"@),
                None => r matches Err(e) && is_storage_error(e, "Invalid credentials"@),
            },
            credentials.method != AuthenticationMethod::UsernamePassword && credentials.method != AuthenticationMethod::Jwt
                ==> (r matches Err(e) && is_storage_error(e, "Authentication method not implemented"@)),
            credentials.method == AuthenticationMethod::UsernamePassword && (credentials.username is None || credentials.password is None)
                ==> (r matches Err(e) && is_storage_error(e, "Invalid credentials"@)),
    {
        match credentials.method {
            AuthenticationMethod::UsernamePassword => self.authenticate_username_password_at(credentials, now),
            AuthenticationMethod::Jwt => self.authenticate_jwt_at(credentials, now),
            _ => Err(Error::AuthenticationNotImplemented()),
        }
    }

    /// Open a session for `user_id` at `now`, lasting the session timeout,
    /// and log it.
    pub fn create_session_at(&mut self, user_id: &str, client_ip: &str, user_agent: &str, now: Timestamp) -> (r: Result<Session>)
        requires
            old(self).wf(),
            old(self).clock_ok(now),
        ensures
            final(self).wf(),
            r matches Ok(s) && {
                &&& exists|h: u64| s.session_id@ == "session_"@ + hex(h as nat)
                &&& session_is(s, user_id@, client_ip@, user_agent@, now, after(now, old(self).spec_config().session_timeout))
                &&& final(self).sessions().dom() == old(self).sessions().dom().insert(s.session_id@)
                &&& session_is(final(self).sessions()[s.session_id@], user_id@, client_ip@, user_agent@, now, after(now, old(self).spec_config().session_timeout))
                &&& forall|k: Seq<char>| k != s.session_id@ && #[trigger] old(self).sessions().contains_key(k) ==> final(self).sessions()[k] == old(self).sessions()[k]
            },
            final(self).logs().len() > 0,
            final(self).logs() == appended(old(self).logs(), final(self).logs().last()),
            records(final(self).logs().last(), Some(user_id@), "create_session"@, "session"@, AuditResult::Success, ""@, now),
            final(self).spec_config() == old(self).spec_config(),
            final(self).users() == old(self).users(),
            final(self).roles() == old(self).roles(),
            final(self).failed() == old(self).failed(),
    {
        let session_id = self.generate_session_id();
        let expires_at = add_duration(now, &self.config.session_timeout);
        let stored = Session {
            session_id: session_id.clone(),
            user_id: user_id.to_string(),
            created_at: now,
            expires_at,
            last_activity: now,
            client_ip: client_ip.to_string(),
            user_agent: user_agent.to_string(),
            data: NameMap::new(),
        };
        let session = Session {
            session_id: session_id.clone(),
            user_id: user_id.to_string(),
            created_at: now,
            expires_at,
            last_activity: now,
            client_ip: client_ip.to_string(),
            user_agent: user_agent.to_string(),
            data: NameMap::new(),
        };
        self.sessions.insert(session_id, stored);
        proof {
            reveal_strlit("");
        }
        self.log_audit_event_at(Some(user_id.to_string()), "create_session", "session", AuditResult::Success, "", now);
        assert(self.sessions().dom() =~= old(self).sessions().dom().insert(session.session_id@));
        Ok(session)
    }

    /// `after` is this manager after session `id` was checked at `now` with
    /// result `r`: an unknown session gives none and changes nothing; an
    /// expired one is removed and none is returned; a live one has its last
    /// activity set to `now`, and a copy of it is returned.
    pub open spec fn session_checked(&self, after: &SecurityManager, id: Seq<char>, now: Timestamp, r: Result<Option<Session>>) -> bool {
        &&& after.wf()
        &&& after.spec_config() == self.spec_config()
        &&& after.users() == self.users()
        &&& after.roles() == self.roles()
        &&& after.logs() == self.logs()
        &&& after.failed() == self.failed()
        &&& if !self.sessions().contains_key(id) {
            &&& r matches Ok(o) && o is None
            &&& after.sessions() == self.sessions()
        } else if now.0 > self.sessions()[id].expires_at.0 {
            &&& r matches Ok(o) && o is None
            &&& after.sessions() == self.sessions().remove(id)
        } else {
            let s = self.sessions()[id];
            &&& after.sessions().dom() == self.sessions().dom()
            &&& after.sessions()[id] == (Session { last_activity: now, ..s })
            &&& forall|k: Seq<char>| k != id && #[trigger] self.sessions().contains_key(k) ==> after.sessions()[k] == self.sessions()[k]
            &&& r matches Ok(Some(c)) && c.session_id@ == s.session_id@ && c.user_id@ == s.user_id@ && c.created_at == s.created_at
                && c.expires_at == s.expires_at && c.last_activity == now && c.client_ip@ == s.client_ip@
                && c.user_agent@ == s.user_agent@ && c.data.map() == s.data.map()
        }
    }

    /// Check session `session_id` at `now` (see `session_checked`).
    pub fn validate_session_at(&mut self, session_id: &str, now: Timestamp) -> (r: Result<Option<Session>>)
        requires
            old(self).wf(),
        ensures
            old(self).session_checked(final(self), session_id@, now, r),
    {
        match self.sessions.remove(session_id) {
            None => {
                assert(self.sessions.map() =~= old(self).sessions.map());
                Ok(None)
            },
            Some(mut session) => {
                if now.0 > session.expires_at.0 {
                    return Ok(None);
                }
                session.last_activity = now;
                let copy = Session {
                    session_id: session.session_id.clone(),
                    user_id: session.user_id.clone(),
                    created_at: session.created_at,
                    expires_at: session.expires_at,
                    last_activity: session.last_activity,
                    client_ip: session.client_ip.clone(),
                    user_agent: session.user_agent.clone(),
                    data: session.data.duplicate_strings(),
                };
                self.sessions.insert(session_id.to_string(), session);
                assert(self.sessions().dom() =~= old(self).sessions().dom());
                Ok(Some(copy))
            },
        }
    }

    /// Decide now whether `user_id` may take `action` on `resource` (see
    /// `authorize_at`).
    pub fn authorize(&mut self, user_id: &str, resource: &str, action: Action) -> (r: Result<bool>)
        requires
            old(self).wf(),
        ensures
            final(self).wf(),
            r is Err <==> !old(self).users().contains_key(user_id@),
            r matches Ok(b) ==> b == (old(self).users()[user_id@].status == AccountStatus::Active && permitted(old(self).roles(), old(self).users()[user_id@].roles@, resource@, action)),
    {
        self.authorize_at(user_id, resource, action, Timestamp::now())
    }

    /// Check session `session_id` now (see `validate_session_at`).
    pub fn validate_session(&mut self, session_id: &str) -> (r: Result<Option<Session>>)
        requires
            old(self).wf(),
        ensures
            final(self).wf(),
            !old(self).sessions().contains_key(session_id@) ==> (r matches Ok(o) && o is None),
            exists|now: Timestamp| #[trigger] old(self).session_checked(final(self), session_id@, now, r),
    {
        self.validate_session_at(session_id, Timestamp::now())
    }

    /// The JWT secret.
    pub fn generate_jwt_secret(&self) -> (s: String)
        ensures
            s@ == "jwt_secret_key"@,
    {
        "jwt_secret_key".to_string()
    }

    /// A key for `algorithm`: 256 zero bits.
    pub fn generate_encryption_key(&self, algorithm: &EncryptionAlgorithm) -> (r: Result<Vec<u8>>)
        ensures
            r matches Ok(k) && k@ == zeros(32),
    {
        match algorithm {
            EncryptionAlgorithm::Aes256Gcm => Ok(zero_bytes(32)),
            EncryptionAlgorithm::Aes256Cbc => Ok(zero_bytes(32)),
            EncryptionAlgorithm::ChaCha20Poly1305 => Ok(zero_bytes(32)),
            EncryptionAlgorithm::XChaCha20Poly1305 => Ok(zero_bytes(32)),
        }
    }

    /// Whether `pattern` names `resource`.
    pub fn matches_resource(&self, pattern: &str, resource: &str) -> (b: bool)
        ensures
            b == resource_matches(pattern@, resource@),
    {
        let p = pattern.to_string();
        proof {
            reveal_strlit("*");
        }
        let star = "*".to_string();
        if p == star {
            return true;
        }
        p == resource.to_string()
    }

    /// The password check (see `password_ok`).
    pub fn verify_password(&self, password: &str, username: &str) -> (b: bool)
        ensures
            b == password_ok(password@, username@),
    {
        proof {
            reveal_strlit("password");
            reveal_strlit("admin");
        }
        password.to_string() == "password".to_string() && username.to_string() == "admin".to_string()
    }

    /// The claims of a token at `now`: any token stands for the user
    /// `user123` (`testuser`, role `user`), expiring an hour on.
    pub fn verify_jwt_token(&self, token: &str, now: Timestamp) -> (r: Result<JwtClaims>)
        requires
            now.0 + 3600 * 1_000_000_000 <= u64::MAX,
        ensures
            r matches Ok(c) && c.user_id@ == "user123"@ && c.username@ == "testuser"@
                && c.roles@.len() == 1 && c.roles@[0]@ == "user"@ && c.exp.0 == now.0 + 3600 * 1_000_000_000,
    {
        let hour = duration_from_secs(3600);
        let exp = add_duration(now, &hour);
        Ok(JwtClaims {
            user_id: "user123".to_string(),
            username: "testuser".to_string(),
            roles: vec!["user".to_string()],
            exp,
        })
    }

    /// A fresh session ID: `session_` and the hexadecimal hash of the time.
    pub fn generate_session_id(&self) -> (s: String)
        ensures
            exists|h: u64| s@ == "session_"@ + hex(h as nat),
    {
        let h = hash_u64(Timestamp::now().as_nanos());
        let mut s = "session_".to_string();
        push_hex(&mut s, h);
        s
    }

    /// A fresh log ID: `log_` and the hexadecimal hash of the time.
    pub fn generate_log_id(&self) -> (s: String)
        ensures
            exists|h: u64| s@ == "log_"@ + hex(h as nat),
    {
        let h = hash_u64(Timestamp::now().as_nanos());
        let mut s = "log_".to_string();
        push_hex(&mut s, h);
        s
    }
}

} // verus!
