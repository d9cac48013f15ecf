//! Identity enumeration, the exemption setter, and their laws.
//!
//! Each operation takes the operating system's answers as plain values: the
//! identity listing (or the status code of its failure), and the exemption
//! list (or `None` when it could not be fetched). The setter returns the full
//! list to commit; `commit_outcome` maps the status of that commit.
use vstd::prelude::*;
use vstd::string::StringExecFns;
use crate::sid::{compare_sids, push_decimal, sid_text, sid_to_string, decimal};

verus! {

/// One identity as the operating system lists it.
#[derive(Debug, Clone)]
pub struct RawAppContainer {
    pub app_container_name: String,
    pub display_name: String,
    pub package_family_name: String,
    pub sid: Vec<u8>,
}

/// One identity with its derived text and exemption flag.
#[derive(Debug, Clone)]
pub struct AppContainer {
    pub app_container_name: String,
    pub display_name: String,
    pub package_family_name: String,
    pub sid: Vec<u8>,
    pub sid_string: String,
    pub is_loopback_enabled: bool,
}

/// Mathematical view of a listed identity.
pub struct RawContainerModel {
    pub app_container_name: Seq<char>,
    pub display_name: Seq<char>,
    pub package_family_name: Seq<char>,
    pub sid: Seq<u8>,
}

/// Mathematical view of an identity with its derived fields.
pub struct ContainerModel {
    pub app_container_name: Seq<char>,
    pub display_name: Seq<char>,
    pub package_family_name: Seq<char>,
    pub sid: Seq<u8>,
    pub sid_string: Seq<char>,
    pub is_loopback_enabled: bool,
}

impl View for RawAppContainer {
    type V = RawContainerModel;

    open spec fn view(&self) -> RawContainerModel {
        RawContainerModel {
            app_container_name: self.app_container_name@,
            display_name: self.display_name@,
            package_family_name: self.package_family_name@,
            sid: self.sid@,
        }
    }
}

impl View for AppContainer {
    type V = ContainerModel;

    open spec fn view(&self) -> ContainerModel {
        ContainerModel {
            app_container_name: self.app_container_name@,
            display_name: self.display_name@,
            package_family_name: self.package_family_name@,
            sid: self.sid@,
            sid_string: self.sid_string@,
            is_loopback_enabled: self.is_loopback_enabled,
        }
    }
}

/// Why an operation did not complete.
#[derive(Debug, Clone)]
pub enum LoopbackError {
    /// The identity listing failed with this status.
    EnumerationFailed(u32),
    /// No identity carries this package family name.
    PackageNotFound(String),
    /// The operating system refused the replacement list with this status.
    CommitFailed(u32),
    /// The host has no loopback-exemption interface.
    Unsupported,
}

/// Views of a listing, in order.
pub open spec fn raw_views(s: Seq<RawAppContainer>) -> Seq<RawContainerModel> {
    s.map_values(|c: RawAppContainer| c@)
}

/// Views of enumerated identities, in order.
pub open spec fn container_views(s: Seq<AppContainer>) -> Seq<ContainerModel> {
    s.map_values(|c: AppContainer| c@)
}

/// The exemption list to use: a failed fetch counts as an empty list.
pub open spec fn known_exemptions(e: Option<Seq<Seq<u8>>>) -> Seq<Seq<u8>> {
    match e {
        Some(l) => l,
        None => seq![],
    }
}

/// The byte contents of each identifier of a list.
pub open spec fn sids_view(l: Seq<Vec<u8>>) -> Seq<Seq<u8>> {
    l.map_values(|v: Vec<u8>| v@)
}

pub open spec fn exemptions_view(e: Option<Vec<Vec<u8>>>) -> Option<Seq<Seq<u8>>> {
    match e {
        Some(l) => Some(sids_view(l@)),
        None => None,
    }
}

/// The identities of a successful listing (none for a failed one).
pub open spec fn listed(listing: Result<Vec<RawAppContainer>, u32>) -> Seq<RawContainerModel> {
    match listing {
        Ok(raws) => raw_views(raws@),
        Err(_) => seq![],
    }
}

/// Some entry of the list is byte-equal to `sid`.
pub open spec fn is_exempt(list: Seq<Seq<u8>>, sid: Seq<u8>) -> bool {
    exists|i: int| 0 <= i < list.len() && list[i] == sid
}

/// One listed identity joined with the exemption list.
pub open spec fn merged(c: RawContainerModel, list: Seq<Seq<u8>>) -> ContainerModel {
    ContainerModel {
        app_container_name: c.app_container_name,
        display_name: c.display_name,
        package_family_name: c.package_family_name,
        sid: c.sid,
        sid_string: sid_text(c.sid),
        is_loopback_enabled: is_exempt(list, c.sid),
    }
}

/// Every listed identity joined with the exemption list, in listing order.
pub open spec fn merged_all(raws: Seq<RawContainerModel>, list: Seq<Seq<u8>>) -> Seq<ContainerModel> {
    Seq::new(raws.len(), |i: int| merged(raws[i], list))
}

/// `t` is the first identity carrying package family name `pfn`.
pub open spec fn first_with_package(raws: Seq<RawContainerModel>, pfn: Seq<char>, t: int) -> bool {
    &&& 0 <= t < raws.len()
    &&& raws[t].package_family_name == pfn
    &&& forall|j: int| 0 <= j < t ==> raws[j].package_family_name != pfn
}

/// Some identity carries package family name `pfn`.
pub open spec fn has_package(raws: Seq<RawContainerModel>, pfn: Seq<char>) -> bool {
    exists|i: int| 0 <= i < raws.len() && raws[i].package_family_name == pfn
}

/// Index of the identity that the setter targets.
pub open spec fn target_of(raws: Seq<RawContainerModel>, pfn: Seq<char>) -> int {
    choose|t: int| first_with_package(raws, pfn, t)
}

/// The list with every entry byte-equal to `sid` dropped, order kept.
pub open spec fn without(list: Seq<Seq<u8>>, sid: Seq<u8>) -> Seq<Seq<u8>>
    decreases list.len(),
{
    if list.len() == 0 {
        seq![]
    } else {
        let rest = without(list.drop_last(), sid);
        if list.last() == sid {
            rest
        } else {
            rest.push(list.last())
        }
    }
}

/// The replacement list: `sid` removed, then appended when enabling.
pub open spec fn updated_exemptions(list: Seq<Seq<u8>>, sid: Seq<u8>, enabled: bool) -> Seq<Seq<u8>> {
    if enabled {
        without(list, sid).push(sid)
    } else {
        without(list, sid)
    }
}

/// The first identity with a name is the one the setter targets.
proof fn lemma_first_unique(raws: Seq<RawContainerModel>, pfn: Seq<char>, t: int)
    requires
        first_with_package(raws, pfn, t),
    ensures
        has_package(raws, pfn),
        target_of(raws, pfn) == t,
{
    let u = target_of(raws, pfn);
    assert(first_with_package(raws, pfn, u));
    if u < t {
        assert(raws[u].package_family_name != pfn);
    } else if t < u {
        assert(raws[t].package_family_name != pfn);
    }
}

/// Joins the identity listing with the exemption list. A failed listing is
/// fatal; a failed exemption fetch counts as an empty list.
pub fn enumerate_app_containers(
    listing: &Result<Vec<RawAppContainer>, u32>,
    exemptions: &Option<Vec<Vec<u8>>>,
) -> (r: Result<Vec<AppContainer>, LoopbackError>)
    ensures
        *listing matches Err(code) ==> r == Err::<Vec<AppContainer>, LoopbackError>(
            LoopbackError::EnumerationFailed(code),
        ),
        *listing matches Ok(raws) ==> r matches Ok(cs) && container_views(cs@) == merged_all(
            raw_views(raws@),
            known_exemptions(exemptions_view(*exemptions)),
        ),
{
    let raws = match listing {
        Err(code) => {
            return Err(LoopbackError::EnumerationFailed(*code));
        },
        Ok(raws) => raws,
    };
    let empty: Vec<Vec<u8>> = Vec::new();
    let list: &Vec<Vec<u8>> = match exemptions {
        Some(l) => l,
        None => &empty,
    };
    let ghost exempt = known_exemptions(exemptions_view(*exemptions));
    assert(sids_view(list@) == exempt);
    let mut out: Vec<AppContainer> = Vec::new();
    let mut i: usize = 0;
    while i < raws.len()
        invariant
            i <= raws@.len(),
            sids_view(list@) == exempt,
            container_views(out@) =~= merged_all(raw_views(raws@.take(i as int)), exempt),
        decreases raws@.len() - i,
    {
        let c = &raws[i];
        let enabled = list_contains(list, &c.sid);
        let sid = c.sid.clone();
        assert(sid@ =~= c.sid@);
        let item = AppContainer {
            app_container_name: c.app_container_name.clone(),
            display_name: c.display_name.clone(),
            package_family_name: c.package_family_name.clone(),
            sid,
            sid_string: sid_to_string(c.sid.as_slice()),
            is_loopback_enabled: enabled,
        };
        assert(item@ == merged(raws@[i as int]@, exempt));
        let ghost prev = out@;
        out.push(item);
        proof {
            assert(out@ == prev.push(item));
            assert(container_views(out@) =~= container_views(prev).push(item@));
            assert(merged_all(raw_views(raws@.take(i as int + 1)), exempt) =~= merged_all(
                raw_views(raws@.take(i as int)),
                exempt,
            ).push(merged(raws@[i as int]@, exempt)));
            assert(container_views(out@) =~= merged_all(raw_views(raws@.take(i as int + 1)), exempt));
        }
        i = i + 1;
    }
    assert(raws@.take(raws@.len() as int) == raws@);
    Ok(out)
}

/// Some entry of `list` is byte-equal to `sid` (linear scan).
fn list_contains(list: &Vec<Vec<u8>>, sid: &Vec<u8>) -> (r: bool)
    ensures
        r == is_exempt(sids_view(list@), sid@),
{
    let mut i: usize = 0;
    while i < list.len()
        invariant
            i <= list@.len(),
            forall|j: int| 0 <= j < i ==> sids_view(list@)[j] != sid@,
        decreases list@.len() - i,
    {
        if compare_sids(list[i].as_slice(), sid.as_slice()) {
            assert(sids_view(list@)[i as int] == sid@);
            return true;
        }
        i = i + 1;
    }
    false
}


/// Text of an error, as handed to the user interface.
pub open spec fn error_text(e: LoopbackError) -> Seq<char> {
    match e {
        LoopbackError::EnumerationFailed(code) => "Failed to enumerate app containers: "@ + decimal(
            code as nat,
        ),
        LoopbackError::PackageNotFound(name) => "Package not found: "@ + name@,
        LoopbackError::CommitFailed(code) => "Failed to set loopback exemption: "@ + decimal(
            code as nat,
        ),
        LoopbackError::Unsupported => "This function is only available on Windows"@,
    }
}

impl LoopbackError {
    /// Text of the error, as handed to the user interface.
    pub fn message(&self) -> (r: String)
        ensures
            r@ == error_text(*self),
    {
        match self {
            LoopbackError::EnumerationFailed(code) => {
                let mut s = String::from_str("Failed to enumerate app containers: ");
                push_decimal(&mut s, *code as u64);
                s
            },
            LoopbackError::PackageNotFound(name) => {
                let s = String::from_str("Package not found: ");
                s.concat(name.as_str())
            },
            LoopbackError::CommitFailed(code) => {
                let mut s = String::from_str("Failed to set loopback exemption: ");
                push_decimal(&mut s, *code as u64);
                s
            },
            LoopbackError::Unsupported => String::from_str(
                "This function is only available on Windows",
            ),
        }
    }
}

/// Computes the exemption list to commit so that the identity carrying
/// `package_family_name` is exempted exactly when `enabled`: every entry
/// byte-equal to its identifier is dropped, and the identifier is appended
/// when enabling. On an error nothing is to be committed.
pub fn set_loopback_exemption(
    listing: &Result<Vec<RawAppContainer>, u32>,
    current: &Option<Vec<Vec<u8>>>,
    package_family_name: &str,
    enabled: bool,
) -> (r: Result<Vec<Vec<u8>>, LoopbackError>)
    ensures
        *listing matches Err(code) ==> r == Err::<Vec<Vec<u8>>, LoopbackError>(
            LoopbackError::EnumerationFailed(code),
        ),
        *listing is Ok && !has_package(listed(*listing), package_family_name@) ==> (r matches Err(
            LoopbackError::PackageNotFound(name),
        ) && name@ == package_family_name@),
        *listing is Ok && has_package(listed(*listing), package_family_name@) ==> (r matches Ok(
            new,
        ) && sids_view(new@) == updated_exemptions(
            known_exemptions(exemptions_view(*current)),
            listed(*listing)[target_of(listed(*listing), package_family_name@)].sid,
            enabled,
        )),
{
    let raws = match listing {
        Err(code) => {
            return Err(LoopbackError::EnumerationFailed(*code));
        },
        Ok(raws) => raws,
    };
    let wanted = String::from_str(package_family_name);
    let ghost rv = raw_views(raws@);
    let mut t: usize = 0;
    while t < raws.len() && !(raws[t].package_family_name == wanted)
        invariant
            t <= raws@.len(),
            rv == raw_views(raws@),
            wanted@ == package_family_name@,
            forall|j: int| 0 <= j < t ==> rv[j].package_family_name != package_family_name@,
        decreases raws@.len() - t,
    {
        assert(rv[t as int] == raws@[t as int]@);
        t = t + 1;
    }
    if t == raws.len() {
        assert(!has_package(rv, package_family_name@));
        return Err(LoopbackError::PackageNotFound(wanted));
    }
    proof {
        assert(rv[t as int] == raws@[t as int]@);
        lemma_first_unique(rv, package_family_name@, t as int);
    }
    let target = &raws[t].sid;
    let empty: Vec<Vec<u8>> = Vec::new();
    let list: &Vec<Vec<u8>> = match current {
        Some(l) => l,
        None => &empty,
    };
    let ghost old_list = known_exemptions(exemptions_view(*current));
    assert(sids_view(list@) == old_list);
    let mut new_sids: Vec<Vec<u8>> = Vec::new();
    let mut i: usize = 0;
    while i < list.len()
        invariant
            i <= list@.len(),
            sids_view(list@) == old_list,
            sids_view(new_sids@) == without(old_list.take(i as int), target@),
        decreases list@.len() - i,
    {
        proof {
            assert(old_list.take(i as int + 1).drop_last() =~= old_list.take(i as int));
        }
        if !compare_sids(list[i].as_slice(), target.as_slice()) {
            let e = list[i].clone();
            assert(e@ =~= list@[i as int]@);
            let ghost prev = new_sids@;
            new_sids.push(e);
            assert(sids_view(new_sids@) =~= sids_view(prev).push(e@));
        }
        i = i + 1;
    }
    assert(old_list.take(list@.len() as int) =~= old_list);
    if enabled {
        let e = target.clone();
        assert(e@ =~= target@);
        let ghost prev = new_sids@;
        new_sids.push(e);
        assert(sids_view(new_sids@) =~= sids_view(prev).push(e@));
    }
    Ok(new_sids)
}

/// Maps the status of the commit of a replacement list.
pub fn commit_outcome(status: u32) -> (r: Result<(), LoopbackError>)
    ensures
        status == 0 ==> r is Ok,
        status != 0 ==> r == Err::<(), LoopbackError>(LoopbackError::CommitFailed(status)),
{
    if status == 0 {
        Ok(())
    } else {
        Err(LoopbackError::CommitFailed(status))
    }
}

/// Dropping `sid` removes it and keeps every other identifier's membership.
proof fn lemma_without_drops(list: Seq<Seq<u8>>, sid: Seq<u8>)
    ensures
        !is_exempt(without(list, sid), sid),
        forall|e: Seq<u8>| e != sid ==> (is_exempt(without(list, sid), e) == is_exempt(list, e)),
    decreases list.len(),
{
    if list.len() > 0 {
        lemma_without_drops(list.drop_last(), sid);
        let rest = without(list.drop_last(), sid);
        assert forall|e: Seq<u8>| e != sid implies (is_exempt(without(list, sid), e) == is_exempt(list, e)) by {
            if is_exempt(list, e) {
                let k = choose|k: int| 0 <= k < list.len() && list[k] == e;
                let w = without(list, sid);
                if k < list.len() - 1 {
                    assert(list.drop_last()[k] == e);
                    assert(is_exempt(list.drop_last(), e));
                    assert(is_exempt(rest, e));
                    let m = choose|m: int| 0 <= m < rest.len() && rest[m] == e;
                    assert(w[m] == e);
                } else {
                    assert(w[w.len() - 1] == e);
                }
            }
            if is_exempt(without(list, sid), e) {
                let w = without(list, sid);
                let k = choose|k: int| 0 <= k < w.len() && w[k] == e;
                if k < rest.len() {
                    assert(rest[k] == e);
                    assert(is_exempt(rest, e));
                    assert(is_exempt(list.drop_last(), e));
                    let m = choose|m: int| 0 <= m < list.drop_last().len() && list.drop_last()[m] == e;
                    assert(list[m] == e);
                } else {
                    assert(list[list.len() - 1] == e);
                }
            }
        }
        if list.last() != sid {
            assert(!is_exempt(rest.push(list.last()), sid)) by {
                if is_exempt(rest.push(list.last()), sid) {
                    let k = choose|k: int| 0 <= k < rest.len() + 1 && rest.push(list.last())[k] == sid;
                    if k < rest.len() {
                        assert(rest[k] == sid);
                    }
                }
            }
        }
    }
}

/// Dropping the same identifier twice is dropping it once.
proof fn lemma_without_twice(list: Seq<Seq<u8>>, sid: Seq<u8>)
    ensures
        without(without(list, sid), sid) == without(list, sid),
    decreases list.len(),
{
    if list.len() > 0 {
        lemma_without_twice(list.drop_last(), sid);
        let rest = without(list.drop_last(), sid);
        if list.last() != sid {
            assert(rest.push(list.last()).drop_last() =~= rest);
        }
    }
}

/// Committing the list that the setter computed and enumerating again shows
/// every identity with the target's identifier exempted exactly when
/// `enabled`; identities with other identifiers keep their flag.
pub proof fn lemma_set_then_enumerate(
    raws: Seq<RawContainerModel>,
    current: Option<Seq<Seq<u8>>>,
    pfn: Seq<char>,
    enabled: bool,
)
    requires
        has_package(raws, pfn),
    ensures
        ({
            let sid = raws[target_of(raws, pfn)].sid;
            let after = merged_all(raws, updated_exemptions(known_exemptions(current), sid, enabled));
            let before = merged_all(raws, known_exemptions(current));
            &&& after.len() == raws.len()
            &&& forall|j: int|
                0 <= j < raws.len() && raws[j].sid == sid ==> after[j].is_loopback_enabled
                    == enabled
            &&& forall|j: int|
                0 <= j < raws.len() && raws[j].sid != sid ==> after[j].is_loopback_enabled
                    == before[j].is_loopback_enabled
        }),
{
    let k = choose|i: int| 0 <= i < raws.len() && raws[i].package_family_name == pfn;
    lemma_first_exists(raws, pfn, k);
    let sid = raws[target_of(raws, pfn)].sid;
    let l = known_exemptions(current);
    lemma_without_drops(l, sid);
    let w = without(l, sid);
    if enabled {
        assert(w.push(sid)[w.len() as int] == sid);
        assert forall|e: Seq<u8>| e != sid implies is_exempt(w.push(sid), e) == is_exempt(w, e) by {
            if is_exempt(w.push(sid), e) {
                let m = choose|m: int| 0 <= m < w.len() + 1 && w.push(sid)[m] == e;
                assert(w[m] == e);
            }
            if is_exempt(w, e) {
                let m = choose|m: int| 0 <= m < w.len() && w[m] == e;
                assert(w.push(sid)[m] == e);
            }
        }
    }
}

/// Any identity with a name leads to a first one.
proof fn lemma_first_exists(raws: Seq<RawContainerModel>, pfn: Seq<char>, k: int)
    requires
        0 <= k < raws.len(),
        raws[k].package_family_name == pfn,
    ensures
        exists|t: int| first_with_package(raws, pfn, t),
    decreases k,
{
    if forall|j: int| 0 <= j < k ==> raws[j].package_family_name != pfn {
        assert(first_with_package(raws, pfn, k));
    } else {
        let j = choose|j: int| 0 <= j < k && raws[j].package_family_name == pfn;
        lemma_first_exists(raws, pfn, j);
    }
}

/// Setting the same identity to the same state twice leaves the list as the
/// first call computed it.
pub proof fn lemma_set_idempotent(list: Seq<Seq<u8>>, sid: Seq<u8>, enabled: bool)
    ensures
        updated_exemptions(
            known_exemptions(Some(updated_exemptions(list, sid, enabled))),
            sid,
            enabled,
        ) == updated_exemptions(list, sid, enabled),
{
    lemma_without_twice(list, sid);
    let w = without(list, sid);
    if enabled {
        assert(w.push(sid).drop_last() =~= w);
    }
}

/// When the exemption list cannot be fetched, every identity is still
/// listed, each not exempted.
pub proof fn lemma_enumerate_without_exemptions(raws: Seq<RawContainerModel>)
    ensures
        merged_all(raws, known_exemptions(None)).len() == raws.len(),
        forall|i: int|
            0 <= i < raws.len() ==> !(#[trigger] merged_all(raws, known_exemptions(None))[i]).is_loopback_enabled,
{
}

} // verus!
