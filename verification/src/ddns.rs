//! Dynamic DNS jobs: zone and record name normalisation, job validation and the
//! initial runtime state of a job.
use vstd::prelude::*;
use vstd::slice::slice_subrange;

use crate::net::IpAddress;
use crate::text::{
    is_unicode_ws, lemma_lower_idempotent, lemma_skip_leading_shape, lemma_skip_noop,
    lemma_skip_trailing_shape, skip_leading, chars_of, contains_class, has_in, lower_seq, skip_trailing, skip_trailing_slice, split_on,
    split_ranges, string_from_chars, to_lower, trim, trim_slice, CharClass, eq_chars,
};

verus! {

/// `trim`, then trailing dots removed, then ASCII lower-cased.
pub open spec fn normalize_name(s: Seq<char>) -> Seq<char> {
    lower_seq(skip_trailing(trim(s), CharClass::Is('.')))
}

/// Some dot-separated label of `s` is empty.
pub open spec fn has_empty_label(s: Seq<char>) -> bool {
    exists|i: int|
        0 <= i < split_on(s, CharClass::Is('.')).len() && (#[trigger] split_on(
            s,
            CharClass::Is('.'),
        )[i]).len() == 0
}

/// The outcome of `normalize_zone_name`: the normalised zone, or the error text.
pub open spec fn zone_name_result(s: Seq<char>) -> Result<Seq<char>, Seq<char>> {
    let z = normalize_name(s);
    if z.len() == 0 {
        Err("zone_name must not be empty"@)
    } else if has_in(z, CharClass::Is('*')) {
        Err("zone_name must not contain wildcard characters"@)
    } else if has_empty_label(z) {
        Err("invalid zone_name '"@ + z + "'"@)
    } else {
        Ok(z)
    }
}

/// The wildcard problem of label number `idx`: `Some(true)` for a `*` label
/// that is not the first, `Some(false)` for a label holding `*` among other text.
pub open spec fn label_wildcard_problem(idx: int, l: Seq<char>) -> Option<bool> {
    if l == seq!['*'] {
        if idx != 0 {
            Some(true)
        } else {
            None
        }
    } else if has_in(l, CharClass::Is('*')) {
        Some(false)
    } else {
        None
    }
}

/// The wildcard problem of the first label, from number `i` on, that has one.
pub open spec fn first_wildcard_problem(labels: Seq<Seq<char>>, i: int) -> Option<bool>
    decreases labels.len() - i,
{
    if i < 0 || i >= labels.len() {
        None
    } else {
        match label_wildcard_problem(i, labels[i]) {
            Some(b) => Some(b),
            None => first_wildcard_problem(labels, i + 1),
        }
    }
}

/// The outcome of `normalize_record_name`: the normalised name, or the error text.
pub open spec fn record_name_result(s: Seq<char>) -> Result<Seq<char>, Seq<char>> {
    let n = normalize_name(s);
    if n.len() == 0 {
        Err("record name must not be empty"@)
    } else if n == seq!['@'] || n == seq!['*'] {
        Ok(n)
    } else if has_empty_label(n) {
        Err("invalid DDNS record name '"@ + n + "'"@)
    } else {
        match first_wildcard_problem(split_on(n, CharClass::Is('.')), 0) {
            None => Ok(n),
            Some(true) => Err(
                "wildcard DDNS record '"@ + n + "' must only appear as the leading label"@,
            ),
            Some(false) => Err("invalid wildcard DDNS record '"@ + n + "'"@),
        }
    }
}

/// The outcome of `fqdn_for_zone_record`.
pub open spec fn fqdn_result(zone: Seq<char>, record: Seq<char>) -> Result<Seq<char>, Seq<char>> {
    match zone_name_result(zone) {
        Err(e) => Err(e),
        Ok(z) => match record_name_result(record) {
            Err(e) => Err(e),
            Ok(r) => if r == seq!['@'] {
                Ok(z)
            } else {
                Ok(r + seq!['.'] + z)
            },
        },
    }
}

/// The characters of `normalize_name(s)`.
fn normalized_chars(s: &str) -> (r: Vec<char>)
    ensures
        r@ == normalize_name(s@),
{
    let chars = chars_of(s);
    let t = trim_slice(chars.as_slice());
    let u = skip_trailing_slice(t, CharClass::Is('.'));
    to_lower(u)
}

/// The string `a`, then the characters `b`, then the string `c`.
fn join_text(a: &str, b: &[char], c: &str) -> (r: String)
    ensures
        r@ == a@ + b@ + c@,
{
    let mut v = chars_of(a);
    let mut i: usize = 0;
    let ghost start = v@;
    while i < b.len()
        invariant
            i <= b@.len(),
            v@ == start + b@.subrange(0, i as int),
        decreases b@.len() - i,
    {
        v.push(b[i]);
        i = i + 1;
        assert(v@ =~= start + b@.subrange(0, i as int));
    }
    assert(b@.subrange(0, b@.len() as int) =~= b@);
    let w = chars_of(c);
    let mut j: usize = 0;
    let ghost mid = v@;
    while j < w.len()
        invariant
            j <= w@.len(),
            v@ == mid + w@.subrange(0, j as int),
        decreases w@.len() - j,
    {
        v.push(w[j]);
        j = j + 1;
        assert(v@ =~= mid + w@.subrange(0, j as int));
    }
    assert(w@.subrange(0, w@.len() as int) =~= w@);
    string_from_chars(v.as_slice())
}

/// Whether some dot-separated label of `s` is empty.
fn empty_label(s: &[char]) -> (r: bool)
    ensures
        r == has_empty_label(s@),
{
    let ranges = split_ranges(s, CharClass::Is('.'));
    let ghost pieces = split_on(s@, CharClass::Is('.'));
    let mut i: usize = 0;
    while i < ranges.len()
        invariant
            ranges@.len() == pieces.len(),
            pieces == split_on(s@, CharClass::Is('.')),
            forall|k: int|
                0 <= k < ranges@.len() ==> #[trigger] ranges@[k].0 <= ranges@[k].1 <= s@.len()
                    && s@.subrange(ranges@[k].0 as int, ranges@[k].1 as int) == pieces[k],
            i <= ranges@.len(),
            forall|k: int| 0 <= k < i ==> (#[trigger] pieces[k]).len() != 0,
        decreases ranges@.len() - i,
    {
        let (a, b) = ranges[i];
        if a == b {
            assert(pieces[i as int].len() == 0);
            return true;
        }
        i = i + 1;
    }
    false
}

/// Normalises a DNS zone name: surrounding whitespace and trailing dots
/// removed, lower-cased; it must be non-empty, hold no `*` and no empty label.
pub fn normalize_zone_name(zone_name: &str) -> (r: Result<String, String>)
    ensures
        match r {
            Ok(v) => zone_name_result(zone_name@) == Ok::<Seq<char>, Seq<char>>(v@),
            Err(e) => zone_name_result(zone_name@) == Err::<Seq<char>, Seq<char>>(e@),
        },
{
    let z = normalized_chars(zone_name);
    if z.len() == 0 {
        return Err("zone_name must not be empty".to_owned());
    }
    if contains_class(z.as_slice(), CharClass::Is('*')) {
        return Err("zone_name must not contain wildcard characters".to_owned());
    }
    if empty_label(z.as_slice()) {
        return Err(join_text("invalid zone_name '", z.as_slice(), "'"));
    }
    Ok(string_from_chars(z.as_slice()))
}

/// Normalises a DDNS record name like a zone name; `@` and `*` stand alone,
/// otherwise no label may be empty and `*` may only be the whole first label.
pub fn normalize_record_name(name: &str) -> (r: Result<String, String>)
    ensures
        match r {
            Ok(v) => record_name_result(name@) == Ok::<Seq<char>, Seq<char>>(v@),
            Err(e) => record_name_result(name@) == Err::<Seq<char>, Seq<char>>(e@),
        },
{
    let n = normalized_chars(name);
    if n.len() == 0 {
        return Err("record name must not be empty".to_owned());
    }
    let at = ['@'];
    let star = ['*'];
    assert(at@ =~= seq!['@']);
    assert(star@ =~= seq!['*']);
    if eq_chars(n.as_slice(), &at) || eq_chars(n.as_slice(), &star) {
        return Ok(string_from_chars(n.as_slice()));
    }
    if empty_label(n.as_slice()) {
        return Err(join_text("invalid DDNS record name '", n.as_slice(), "'"));
    }
    let ranges = split_ranges(n.as_slice(), CharClass::Is('.'));
    let ghost labels = split_on(n@, CharClass::Is('.'));
    let mut idx: usize = 0;
    while idx < ranges.len()
        invariant
            ranges@.len() == labels.len(),
            labels == split_on(n@, CharClass::Is('.')),
            forall|k: int|
                0 <= k < ranges@.len() ==> #[trigger] ranges@[k].0 <= ranges@[k].1 <= n@.len()
                    && n@.subrange(ranges@[k].0 as int, ranges@[k].1 as int) == labels[k],
            idx <= ranges@.len(),
            star@ == seq!['*'],
            n@ == normalize_name(name@),
            n@.len() > 0,
            n@ != seq!['@'] && n@ != seq!['*'],
            !has_empty_label(n@),
            first_wildcard_problem(labels, 0) == first_wildcard_problem(labels, idx as int),
        decreases ranges@.len() - idx,
    {
        let (a, b) = ranges[idx];
        let label = slice_subrange(n.as_slice(), a, b);
        assert(label@ == labels[idx as int]);
        if eq_chars(label, &star) {
            if idx != 0 {
                assert(label_wildcard_problem(idx as int, labels[idx as int]) == Some(true));
                return Err(
                    join_text(
                        "wildcard DDNS record '",
                        n.as_slice(),
                        "' must only appear as the leading label",
                    ),
                );
            }
        } else if contains_class(label, CharClass::Is('*')) {
            assert(label_wildcard_problem(idx as int, labels[idx as int]) == Some(false));
            return Err(join_text("invalid wildcard DDNS record '", n.as_slice(), "'"));
        }
        assert(label_wildcard_problem(idx as int, labels[idx as int]) is None);
        idx = idx + 1;
    }
    assert(first_wildcard_problem(labels, idx as int) is None);
    Ok(string_from_chars(n.as_slice()))
}

/// The fully qualified name of `record_name` in `zone_name` (`@` is the zone itself).
pub fn fqdn_for_zone_record(zone_name: &str, record_name: &str) -> (r: Result<String, String>)
    ensures
        match r {
            Ok(v) => fqdn_result(zone_name@, record_name@) == Ok::<Seq<char>, Seq<char>>(v@),
            Err(e) => fqdn_result(zone_name@, record_name@) == Err::<Seq<char>, Seq<char>>(e@),
        },
{
    let zone = match normalize_zone_name(zone_name) {
        Ok(z) => z,
        Err(e) => {
            return Err(e);
        },
    };
    let record = match normalize_record_name(record_name) {
        Ok(x) => x,
        Err(e) => {
            return Err(e);
        },
    };
    let rc = chars_of(record.as_str());
    let at = ['@'];
    assert(at@ =~= seq!['@']);
    if eq_chars(rc.as_slice(), &at) {
        return Ok(zone);
    }
    let mut v = rc;
    v.push('.');
    let zc = chars_of(zone.as_str());
    let s = join_text("", v.as_slice(), zone.as_str());
    proof {
        reveal_strlit("");
        assert(""@ + v@ + zone@ =~= record@ + seq!['.'] + zone@);
    }
    Ok(s)
}


/// A normalised name that does not end in whitespace normalises to itself.
pub proof fn lemma_normalize_name_fixpoint(s: Seq<char>)
    requires
        normalize_name(s).len() > 0,
        !is_unicode_ws(normalize_name(s).last()),
    ensures
        normalize_name(normalize_name(s)) == normalize_name(s),
{
    let t = trim(s);
    let a = skip_leading(s, CharClass::Ws);
    let u = skip_trailing(t, CharClass::Is('.'));
    let z = normalize_name(s);
    lemma_skip_leading_shape(s, CharClass::Ws);
    lemma_skip_trailing_shape(a, CharClass::Ws);
    lemma_skip_trailing_shape(t, CharClass::Is('.'));
    assert(z.len() == u.len());
    assert(u.len() > 0);
    assert(t[0] == a[0]);
    assert(u[0] == t[0]);
    assert(!is_unicode_ws(z[0]));
    assert(z.last() == crate::text::ascii_lower(u.last()));
    assert(z.last() != '.');
    lemma_skip_noop(z, CharClass::Ws);
    assert(skip_leading(z, CharClass::Ws) == z);
    assert(trim(z) == z);
    lemma_skip_noop(z, CharClass::Is('.'));
    lemma_lower_idempotent(u);
}

/// Normalising an already normalised zone name (one not ending in whitespace)
/// succeeds and changes nothing.
pub proof fn lemma_zone_name_idempotent(s: Seq<char>, z: Seq<char>)
    requires
        zone_name_result(s) == Ok::<Seq<char>, Seq<char>>(z),
        !is_unicode_ws(z.last()),
    ensures
        zone_name_result(z) == Ok::<Seq<char>, Seq<char>>(z),
{
    lemma_normalize_name_fixpoint(s);
}

/// Normalising an already normalised record name (one not ending in whitespace)
/// succeeds and changes nothing.
pub proof fn lemma_record_name_idempotent(s: Seq<char>, n: Seq<char>)
    requires
        record_name_result(s) == Ok::<Seq<char>, Seq<char>>(n),
        !is_unicode_ws(n.last()),
    ensures
        record_name_result(n) == Ok::<Seq<char>, Seq<char>>(n),
{
    lemma_normalize_name_fixpoint(s);
}


/// The address family a DDNS source publishes.
#[derive(Debug, Clone, Copy, PartialEq, Eq, Structural)]
pub enum IpFamily {
    Ipv4,
    Ipv6,
}

/// Where a DDNS job takes its address from.
#[derive(Debug, Clone)]
pub enum DdnsSource {
    /// An address of a local WAN interface.
    LocalWan { iface_name: String, family: IpFamily },
    /// An address of an enrolled LAN device (its id is the UUID's 128-bit value),
    /// combined with the prefix delegated to `wan_pd_id`.
    EnrolledDevice { device_id: u128, wan_pd_id: Option<String>, family: IpFamily },
}

#[derive(Debug, Clone, Copy, PartialEq, Eq, Structural)]
pub enum DdnsJobStatus {
    Idle,
    Syncing,
    Success,
    Error,
}

#[derive(Debug, Clone, Copy, PartialEq, Eq, Structural)]
pub enum DdnsRuntimeReason {
    Disabled,
    NotConfigured,
    Pending,
    Publishing,
    Published,
    UpToDate,
    WaitingWanIp,
    NoMatchingSource,
    SourceNotImplemented,
    WaitingLanDeviceIp,
    WaitingWanPdPrefix,
    ProviderProfileMissing,
    ProviderUnsupported,
    AuthFailed,
    RateLimited,
    Timeout,
    NetworkError,
    RemoteRejected,
    UnknownError,
}

impl Default for DdnsJobStatus {
    fn default() -> (r: Self)
        ensures
            r == DdnsJobStatus::Idle,
    {
        DdnsJobStatus::Idle
    }
}

impl Default for DdnsRuntimeReason {
    fn default() -> (r: Self)
        ensures
            r == DdnsRuntimeReason::Pending,
    {
        DdnsRuntimeReason::Pending
    }
}

/// One record name of a job.
#[derive(Debug, Clone)]
pub struct DdnsRecordConfig {
    pub name: String,
    pub enable: bool,
}

/// A DDNS job: which sources to publish, into which zone and records.
/// (Identifiers are the 128-bit values of their UUIDs.)
#[derive(Debug, Clone)]
pub struct DdnsJob {
    pub id: u128,
    pub name: String,
    pub enable: bool,
    pub sources: Vec<DdnsSource>,
    pub zone_name: String,
    pub provider_profile_id: u128,
    pub ttl: Option<u32>,
    pub records: Vec<DdnsRecordConfig>,
}

/// Publication state of one address family of one record.
#[derive(Debug, Clone)]
pub struct DdnsFamilyRuntime {
    pub last_published_ips: Vec<IpAddress>,
    pub message: Option<String>,
    pub last_error: Option<String>,
    pub status: DdnsJobStatus,
    pub reason: DdnsRuntimeReason,
    pub retryable: bool,
}

/// Publication state of one record.
#[derive(Debug, Clone)]
pub struct DdnsRecordRuntime {
    pub name: String,
    pub ipv4: DdnsFamilyRuntime,
    pub ipv6: DdnsFamilyRuntime,
}

/// Publication state of a job.
#[derive(Debug, Clone)]
pub struct DdnsJobRuntime {
    pub job_id: u128,
    pub status: DdnsJobStatus,
    pub reason: DdnsRuntimeReason,
    pub records: Vec<DdnsRecordRuntime>,
    pub message: Option<String>,
    pub retryable: bool,
}

pub open spec fn source_family(s: DdnsSource) -> IpFamily {
    match s {
        DdnsSource::LocalWan { family, .. } => family,
        DdnsSource::EnrolledDevice { family, .. } => family,
    }
}

/// What makes two sources the same: the trimmed interface and family of a WAN
/// source; the device, delegation and family of a device source.
pub enum SourceKey {
    Wan(Seq<char>, IpFamily),
    Device(u128, Option<Seq<char>>, IpFamily),
}

pub open spec fn source_key(s: DdnsSource) -> SourceKey {
    match s {
        DdnsSource::LocalWan { iface_name, family } => SourceKey::Wan(trim(iface_name@), family),
        DdnsSource::EnrolledDevice { device_id, wan_pd_id, family } => SourceKey::Device(
            device_id,
            match wan_pd_id {
                Some(x) => Some(x@),
                None => None,
            },
            family,
        ),
    }
}

/// The complaint about a source that names no interface.
pub open spec fn source_problem(s: DdnsSource) -> Option<Seq<char>> {
    match s {
        DdnsSource::LocalWan { iface_name, .. } => if trim(iface_name@).len() == 0 {
            Some("DDNS source iface_name must not be empty"@)
        } else {
            None
        },
        DdnsSource::EnrolledDevice { wan_pd_id, .. } => match wan_pd_id {
            None => Some("DDNS source wan_pd_id is required"@),
            Some(x) => if trim(x@).len() == 0 {
                Some("DDNS source wan_pd_id must not be empty"@)
            } else {
                None
            },
        },
    }
}

/// The complaint about the first source, from number `i` on, that has one.
pub open spec fn first_source_problem(srcs: Seq<DdnsSource>, i: int) -> Option<Seq<char>>
    decreases srcs.len() - i,
{
    if i < 0 || i >= srcs.len() {
        None
    } else {
        match source_problem(srcs[i]) {
            Some(m) => Some(m),
            None => first_source_problem(srcs, i + 1),
        }
    }
}

/// Two sources of the list are the same.
pub open spec fn has_duplicate_source(srcs: Seq<DdnsSource>) -> bool {
    exists|i: int, j: int|
        0 <= i < j < srcs.len() && #[trigger] source_key(srcs[i]) == #[trigger] source_key(
            srcs[j],
        )
}

/// The outcome of checking records `i..` given the normalised names `seen` of
/// the records before them.
pub open spec fn check_records(
    names: Seq<Seq<char>>,
    i: int,
    seen: Seq<Seq<char>>,
    zone: Seq<char>,
) -> Result<(), Seq<char>>
    decreases names.len() - i,
{
    if i < 0 || i >= names.len() {
        Ok(())
    } else {
        match record_name_result(names[i]) {
            Err(e) => Err(e),
            Ok(n) => if seen.contains(n) {
                Err("duplicate DDNS record '"@ + n + "' under zone '"@ + zone + "'"@)
            } else {
                check_records(names, i + 1, seen.push(n), zone)
            },
        }
    }
}

pub open spec fn record_names(job: DdnsJob) -> Seq<Seq<char>> {
    job.records@.map_values(|r: DdnsRecordConfig| r.name@)
}

/// The outcome of `DdnsJob::validate`.
pub open spec fn job_validation(job: DdnsJob) -> Result<(), Seq<char>> {
    match zone_name_result(job.zone_name@) {
        Err(e) => Err(e),
        Ok(zone) => if job.ttl == Some(0u32) {
            Err("ttl must be greater than 0 when provided"@)
        } else if job.records@.len() == 0 {
            Err("at least one DDNS record is required"@)
        } else if job.sources@.len() == 0 {
            Err("at least one DDNS source is required"@)
        } else if first_source_problem(job.sources@, 0) is Some {
            Err(first_source_problem(job.sources@, 0).unwrap())
        } else if has_duplicate_source(job.sources@) {
            Err("duplicate DDNS source is not allowed"@)
        } else {
            check_records(record_names(job), 0, seq![], zone)
        },
    }
}

/// Index of the first record, from `i` on, whose name does not normalise (or `names.len()`).
pub open spec fn first_bad_record(names: Seq<Seq<char>>, i: int) -> int
    decreases names.len() - i,
{
    if i < 0 || i >= names.len() {
        names.len() as int
    } else if record_name_result(names[i]) is Err {
        i
    } else {
        first_bad_record(names, i + 1)
    }
}

/// The reason of a family that is enabled or not, and has a source or not.
pub open spec fn tracking_reason(enabled: bool, configured: bool) -> DdnsRuntimeReason {
    if enabled && !configured {
        DdnsRuntimeReason::NotConfigured
    } else if enabled {
        DdnsRuntimeReason::Pending
    } else {
        DdnsRuntimeReason::Disabled
    }
}

impl DdnsFamilyRuntime {
    /// The initial state: idle, nothing published, no message.
    pub open spec fn is_initial(&self, reason: DdnsRuntimeReason) -> bool {
        &&& self.last_published_ips@.len() == 0
        &&& self.message is None
        &&& self.last_error is None
        &&& self.status == DdnsJobStatus::Idle
        &&& self.reason == reason
        &&& !self.retryable
    }

    /// Initial state of an enabled or disabled family that has a source.
    pub fn from_enabled(enabled: bool) -> (r: Self)
        ensures
            r.is_initial(tracking_reason(enabled, true)),
    {
        Self::from_tracking(enabled, true)
    }

    /// Initial state: `Pending` when enabled, `NotConfigured` when enabled
    /// without a source for the family, `Disabled` otherwise.
    pub fn from_tracking(enabled: bool, configured: bool) -> (r: Self)
        ensures
            r.is_initial(tracking_reason(enabled, configured)),
    {
        let reason = if enabled {
            DdnsRuntimeReason::Pending
        } else {
            DdnsRuntimeReason::Disabled
        };
        let reason = if enabled && !configured {
            DdnsRuntimeReason::NotConfigured
        } else {
            reason
        };
        DdnsFamilyRuntime {
            last_published_ips: Vec::new(),
            message: None,
            last_error: None,
            status: DdnsJobStatus::Idle,
            reason,
            retryable: false,
        }
    }
}

impl DdnsJob {
    /// Some source publishes `family`.
    pub open spec fn spec_has_family(&self, family: IpFamily) -> bool {
        exists|i: int| 0 <= i < self.sources@.len() && source_family(#[trigger] self.sources@[i]) == family
    }

    /// Whether some source publishes `wanted_family`.
    pub fn has_source_for_family(&self, wanted_family: IpFamily) -> (r: bool)
        ensures
            r == self.spec_has_family(wanted_family),
    {
        let mut i: usize = 0;
        while i < self.sources.len()
            invariant
                i <= self.sources@.len(),
                forall|j: int| 0 <= j < i ==> source_family(#[trigger] self.sources@[j]) != wanted_family,
            decreases self.sources@.len() - i,
        {
            let f = match &self.sources[i] {
                DdnsSource::LocalWan { family, .. } => *family,
                DdnsSource::EnrolledDevice { family, .. } => *family,
            };
            if f == wanted_family {
                assert(source_family(self.sources@[i as int]) == wanted_family);
                return true;
            }
            i = i + 1;
        }
        false
    }

    /// Checks the job: its zone normalises, a given TTL is positive, it has
    /// records and sources, every source names its interface, no source repeats,
    /// and every record name normalises to a name no earlier record has.
    pub fn validate(&self) -> (r: Result<(), String>)
        ensures
            match r {
                Ok(()) => job_validation(*self) == Ok::<(), Seq<char>>(()),
                Err(e) => job_validation(*self) == Err::<(), Seq<char>>(e@),
            },
    {
        let zone = match normalize_zone_name(self.zone_name.as_str()) {
            Ok(z) => z,
            Err(e) => {
                return Err(e);
            },
        };
        if let Some(ttl) = self.ttl {
            if ttl == 0 {
                return Err("ttl must be greater than 0 when provided".to_owned());
            }
        }
        if self.records.len() == 0 {
            return Err("at least one DDNS record is required".to_owned());
        }
        if self.sources.len() == 0 {
            return Err("at least one DDNS source is required".to_owned());
        }
        let mut i: usize = 0;
        while i < self.sources.len()
            invariant
                i <= self.sources@.len(),
                zone_name_result(self.zone_name@) == Ok::<Seq<char>, Seq<char>>(zone@),
                self.ttl != Some(0u32),
                self.records@.len() > 0,
                self.sources@.len() > 0,
                first_source_problem(self.sources@, 0) == first_source_problem(self.sources@, i as int),
            decreases self.sources@.len() - i,
        {
            match &self.sources[i] {
                DdnsSource::LocalWan { iface_name, .. } => {
                    let c = chars_of(iface_name.as_str());
                    if trim_slice(c.as_slice()).len() == 0 {
                        return Err("DDNS source iface_name must not be empty".to_owned());
                    }
                },
                DdnsSource::EnrolledDevice { wan_pd_id, .. } => match wan_pd_id {
                    None => {
                        return Err("DDNS source wan_pd_id is required".to_owned());
                    },
                    Some(x) => {
                        let c = chars_of(x.as_str());
                        if trim_slice(c.as_slice()).len() == 0 {
                            return Err("DDNS source wan_pd_id must not be empty".to_owned());
                        }
                    },
                },
            }
            i = i + 1;
        }
        if self.duplicate_source() {
            return Err("duplicate DDNS source is not allowed".to_owned());
        }
        self.validate_records(zone)
    }

    /// Whether two sources are the same.
    fn duplicate_source(&self) -> (r: bool)
        ensures
            r == has_duplicate_source(self.sources@),
    {
        let n = self.sources.len();
        let mut j: usize = 0;
        while j < n
            invariant
                n == self.sources@.len(),
                j <= n,
                forall|a: int, b: int|
                    0 <= a < b < j ==> #[trigger] source_key(self.sources@[a]) != #[trigger] source_key(
                        self.sources@[b],
                    ),
            decreases n - j,
        {
            let mut i: usize = 0;
            while i < j
                invariant
                    n == self.sources@.len(),
                    i <= j < n,
                    forall|a: int| 0 <= a < i ==> #[trigger] source_key(self.sources@[a]) != source_key(self.sources@[j as int]),
                decreases j - i,
            {
                if same_source(&self.sources[i], &self.sources[j]) {
                    assert(source_key(self.sources@[i as int]) == source_key(self.sources@[j as int]));
                    return true;
                }
                i = i + 1;
            }
            j = j + 1;
        }
        false
    }

    fn validate_records(&self, zone: String) -> (r: Result<(), String>)
        requires
            zone_name_result(self.zone_name@) == Ok::<Seq<char>, Seq<char>>(zone@),
        ensures
            match r {
                Ok(()) => check_records(record_names(*self), 0, seq![], zone@) == Ok::<(), Seq<char>>(()),
                Err(e) => check_records(record_names(*self), 0, seq![], zone@) == Err::<(), Seq<char>>(e@),
            },
    {
        let ghost names = record_names(*self);
        let zc = chars_of(zone.as_str());
        let mut seen: Vec<Vec<char>> = Vec::new();
        assert(seen@.map_values(|x: Vec<char>| x@) =~= Seq::<Seq<char>>::empty());
        let mut i: usize = 0;
        while i < self.records.len()
            invariant
                names == record_names(*self),
                names.len() == self.records@.len(),
                zc@ == zone@,
                i <= self.records@.len(),
                check_records(names, 0, seq![], zone@) == check_records(
                    names,
                    i as int,
                    seen@.map_values(|x: Vec<char>| x@),
                    zone@,
                ),
            decreases self.records@.len() - i,
        {
            assert(names[i as int] == self.records@[i as int].name@);
            let n = match normalize_record_name(self.records[i].name.as_str()) {
                Ok(n) => n,
                Err(e) => {
                    return Err(e);
                },
            };
            let nc = chars_of(n.as_str());
            let ghost sv = seen@.map_values(|x: Vec<char>| x@);
            if holds_chars(&seen, nc.as_slice()) {
                let mut msg = nc.clone();
                let tail = join_text("' under zone '", zc.as_slice(), "'");
                let tc = chars_of(tail.as_str());
                let mut q: usize = 0;
                let ghost head = msg@;
                while q < tc.len()
                    invariant
                        q <= tc@.len(),
                        msg@ == head + tc@.subrange(0, q as int),
                    decreases tc@.len() - q,
                {
                    msg.push(tc[q]);
                    q = q + 1;
                    assert(msg@ =~= head + tc@.subrange(0, q as int));
                }
                assert(tc@.subrange(0, tc@.len() as int) =~= tc@);
                assert(tc@ == "' under zone '"@ + zone@ + "'"@);
                assert(msg@ =~= n@ + ("' under zone '"@ + zone@ + "'"@));
                let s = join_text("duplicate DDNS record '", msg.as_slice(), "");
                proof {
                    reveal_strlit("");
                    assert("duplicate DDNS record '"@ + msg@ + ""@ =~= "duplicate DDNS record '"@
                        + nc@ + "' under zone '"@ + zone@ + "'"@);
                }
                return Err(s);
            }
            assert(!sv.contains(nc@));
            seen.push(nc);
            assert(seen@.map_values(|x: Vec<char>| x@) =~= sv.push(n@));
            i = i + 1;
        }
        Ok(())
    }

    /// Stores the normalised zone name and record names. The zone is normalised
    /// first; on an error nothing after the failing name is changed (records
    /// before a failing record keep their normalised names).
    pub fn normalize_for_save(&mut self) -> (r: Result<(), String>)
        ensures
            final(self).id == old(self).id,
            final(self).name == old(self).name,
            final(self).enable == old(self).enable,
            final(self).sources == old(self).sources,
            final(self).provider_profile_id == old(self).provider_profile_id,
            final(self).ttl == old(self).ttl,
            final(self).records@.len() == old(self).records@.len(),
            match zone_name_result(old(self).zone_name@) {
                Err(e) => r == Err::<(), String>(r->Err_0) && r->Err_0@ == e && final(self).zone_name
                    == old(self).zone_name && final(self).records == old(self).records,
                Ok(z) => {
                    let k = first_bad_record(record_names(*old(self)), 0);
                    &&& final(self).zone_name@ == z
                    &&& forall|j: int|
                        0 <= j < final(self).records@.len() ==> (#[trigger] final(self).records@[j]).enable == old(self).records@[j].enable
                    &&& forall|j: int|
                        0 <= j < k ==> record_name_result(old(self).records@[j].name@) == Ok::<
                            Seq<char>,
                            Seq<char>,
                        >((#[trigger] final(self).records@[j]).name@)
                    &&& forall|j: int|
                        k <= j < final(self).records@.len() ==> (#[trigger] final(self).records@[j]).name == old(self).records@[j].name
                    &&& if k < old(self).records@.len() {
                        r is Err && record_name_result(old(self).records@[k].name@)
                            == Err::<Seq<char>, Seq<char>>(r->Err_0@)
                    } else {
                        r is Ok
                    }
                },
            },
    {
        let zone = match normalize_zone_name(self.zone_name.as_str()) {
            Ok(z) => z,
            Err(e) => {
                return Err(e);
            },
        };
        self.zone_name = zone;
        let ghost names = record_names(*old(self));
        let ghost orig = old(self).records@;
        let mut i: usize = 0;
        while i < self.records.len()
            invariant
                names == record_names(*old(self)),
                orig == old(self).records@,
                names.len() == orig.len(),
                self.records@.len() == orig.len(),
                self.id == old(self).id,
                self.name == old(self).name,
                self.enable == old(self).enable,
                self.sources == old(self).sources,
                self.provider_profile_id == old(self).provider_profile_id,
                self.ttl == old(self).ttl,
                zone_name_result(old(self).zone_name@) == Ok::<Seq<char>, Seq<char>>(self.zone_name@),
                i <= orig.len(),
                first_bad_record(names, 0) == first_bad_record(names, i as int),
                forall|j: int| 0 <= j < self.records@.len() ==> (#[trigger] self.records@[j]).enable == orig[j].enable,
                forall|j: int|
                    0 <= j < i ==> record_name_result(orig[j].name@) == Ok::<Seq<char>, Seq<char>>(
                        (#[trigger] self.records@[j]).name@,
                    ),
                forall|j: int| i <= j < self.records@.len() ==> (#[trigger] self.records@[j]).name == orig[j].name,
            decreases orig.len() - i,
        {
            assert(names[i as int] == orig[i as int].name@);
            let n = match normalize_record_name(self.records[i].name.as_str()) {
                Ok(n) => n,
                Err(e) => {
                    return Err(e);
                },
            };
            let enable = self.records[i].enable;
            self.records.set(i, DdnsRecordConfig { name: n, enable });
            i = i + 1;
        }
        Ok(())
    }
}

/// Whether `seen` holds a vector with the characters `x`.
fn holds_chars(seen: &Vec<Vec<char>>, x: &[char]) -> (r: bool)
    ensures
        r == seen@.map_values(|v: Vec<char>| v@).contains(x@),
{
    let ghost sv = seen@.map_values(|v: Vec<char>| v@);
    let mut k: usize = 0;
    while k < seen.len()
        invariant
            sv == seen@.map_values(|v: Vec<char>| v@),
            k <= seen@.len(),
            forall|q: int| 0 <= q < k ==> sv[q] != x@,
        decreases seen@.len() - k,
    {
        if eq_chars(seen[k].as_slice(), x) {
            assert(sv[k as int] == x@);
            return true;
        }
        k = k + 1;
    }
    false
}

/// Whether two sources are the same (see `source_key`).
fn same_source(a: &DdnsSource, b: &DdnsSource) -> (r: bool)
    ensures
        r == (source_key(*a) == source_key(*b)),
{
    match (a, b) {
        (
            DdnsSource::LocalWan { iface_name: x, family: fx },
            DdnsSource::LocalWan { iface_name: y, family: fy },
        ) => {
            let cx = chars_of(x.as_str());
            let cy = chars_of(y.as_str());
            *fx == *fy && eq_chars(trim_slice(cx.as_slice()), trim_slice(cy.as_slice()))
        },
        (
            DdnsSource::EnrolledDevice { device_id: dx, wan_pd_id: px, family: fx },
            DdnsSource::EnrolledDevice { device_id: dy, wan_pd_id: py, family: fy },
        ) => {
            let same_pd = match (px, py) {
                (None, None) => true,
                (Some(p), Some(q)) => {
                    let cp = chars_of(p.as_str());
                    let cq = chars_of(q.as_str());
                    eq_chars(cp.as_slice(), cq.as_slice())
                },
                _ => false,
            };
            *dx == *dy && *fx == *fy && same_pd
        },
        _ => false,
    }
}

impl DdnsJobRuntime {
    /// The initial runtime state of `job`: idle; `Pending` when the job and
    /// some record are enabled, `Disabled` otherwise; each record's families
    /// start as `DdnsFamilyRuntime::from_tracking` of (job and record enabled,
    /// the job has a source of the family).
    pub fn from_config(job: &DdnsJob) -> (r: Self)
        ensures
            r.job_id == job.id,
            r.status == DdnsJobStatus::Idle,
            r.reason == if job.enable && exists|i: int|
                0 <= i < job.records@.len() && (#[trigger] job.records@[i]).enable {
                DdnsRuntimeReason::Pending
            } else {
                DdnsRuntimeReason::Disabled
            },
            r.message is None,
            !r.retryable,
            r.records@.len() == job.records@.len(),
            forall|i: int|
                0 <= i < r.records@.len() ==> {
                    &&& (#[trigger] r.records@[i]).name@ == job.records@[i].name@
                    &&& r.records@[i].ipv4.is_initial(
                        tracking_reason(
                            job.enable && job.records@[i].enable,
                            job.spec_has_family(IpFamily::Ipv4),
                        ),
                    )
                    &&& r.records@[i].ipv6.is_initial(
                        tracking_reason(
                            job.enable && job.records@[i].enable,
                            job.spec_has_family(IpFamily::Ipv6),
                        ),
                    )
                },
    {
        let mut any_enabled = false;
        let mut records: Vec<DdnsRecordRuntime> = Vec::new();
        let has_v4 = job.has_source_for_family(IpFamily::Ipv4);
        let has_v6 = job.has_source_for_family(IpFamily::Ipv6);
        let mut i: usize = 0;
        while i < job.records.len()
            invariant
                i <= job.records@.len(),
                has_v4 == job.spec_has_family(IpFamily::Ipv4),
                has_v6 == job.spec_has_family(IpFamily::Ipv6),
                any_enabled == exists|j: int| 0 <= j < i && (#[trigger] job.records@[j]).enable,
                records@.len() == i,
                forall|j: int|
                    0 <= j < i ==> {
                        &&& (#[trigger] records@[j]).name@ == job.records@[j].name@
                        &&& records@[j].ipv4.is_initial(
                            tracking_reason(job.enable && job.records@[j].enable, has_v4),
                        )
                        &&& records@[j].ipv6.is_initial(
                            tracking_reason(job.enable && job.records@[j].enable, has_v6),
                        )
                    },
            decreases job.records@.len() - i,
        {
            let rec = &job.records[i];
            let on = job.enable && rec.enable;
            records.push(
                DdnsRecordRuntime {
                    name: rec.name.clone(),
                    ipv4: DdnsFamilyRuntime::from_tracking(on, has_v4),
                    ipv6: DdnsFamilyRuntime::from_tracking(on, has_v6),
                },
            );
            if rec.enable {
                assert(job.records@[i as int].enable);
            }
            any_enabled = any_enabled || rec.enable;
            i = i + 1;
        }
        let reason = if job.enable && any_enabled {
            DdnsRuntimeReason::Pending
        } else {
            DdnsRuntimeReason::Disabled
        };
        DdnsJobRuntime {
            job_id: job.id,
            status: DdnsJobStatus::Idle,
            reason,
            records,
            message: None,
            retryable: false,
        }
    }
}

/// Two sources count as the same exactly when both are WAN sources with the
/// same interface name (ignoring surrounding whitespace) and the same address
/// family, or both are device sources with the same device, the same
/// delegation and the same address family.
pub proof fn lemma_same_source_exactly(a: DdnsSource, b: DdnsSource)
    ensures
        (source_key(a) == source_key(b)) <==> match (a, b) {
            (
                DdnsSource::LocalWan { iface_name: n1, family: f1 },
                DdnsSource::LocalWan { iface_name: n2, family: f2 },
            ) => trim(n1@) == trim(n2@) && f1 == f2,
            (
                DdnsSource::EnrolledDevice { device_id: d1, wan_pd_id: p1, family: f1 },
                DdnsSource::EnrolledDevice { device_id: d2, wan_pd_id: p2, family: f2 },
            ) => d1 == d2 && f1 == f2 && (p1 is Some <==> p2 is Some) && (p1 is Some ==> p1->0@
                == p2->0@),
            _ => false,
        },
{
}

/// Sources of different address families are never duplicates of one
/// another, whatever interface or device they name: the same WAN interface
/// may publish both its IPv4 and its IPv6 address.
pub proof fn lemma_families_never_duplicate(srcs: Seq<DdnsSource>)
    requires
        forall|i: int, j: int|
            0 <= i < j < srcs.len() ==> source_family(#[trigger] srcs[i]) != source_family(
                #[trigger] srcs[j],
            ),
    ensures
        !has_duplicate_source(srcs),
{
    assert forall|i: int, j: int| 0 <= i < j < srcs.len() implies source_key(#[trigger] srcs[i])
        != source_key(#[trigger] srcs[j]) by {
        lemma_same_source_exactly(srcs[i], srcs[j]);
        assert(source_family(srcs[i]) != source_family(srcs[j]));
    }
}

/// A job whose sources all differ in address family is never refused for a
/// duplicate source: once its zone, TTL, records and sources are otherwise
/// fine, only its record names decide.
pub proof fn lemma_distinct_families_pass_source_check(job: DdnsJob)
    requires
        zone_name_result(job.zone_name@) is Ok,
        job.ttl != Some(0u32),
        job.records@.len() > 0,
        job.sources@.len() > 0,
        first_source_problem(job.sources@, 0) is None,
        forall|i: int, j: int|
            0 <= i < j < job.sources@.len() ==> source_family(#[trigger] job.sources@[i])
                != source_family(#[trigger] job.sources@[j]),
    ensures
        job_validation(job) == check_records(
            record_names(job),
            0,
            seq![],
            zone_name_result(job.zone_name@)->Ok_0,
        ),
{
    lemma_families_never_duplicate(job.sources@);
}

} // verus!
