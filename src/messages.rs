//! Requests from the user interface and the replies built for them.
//!
//! Each handler takes what the operating-system side produced for the request
//! and decides the reply. The reconcile request is planned first
//! (`SaveConfiguration::changes`); each planned change is applied by the
//! caller, and the outcomes come back to `SaveConfiguration::handle`.
use vstd::prelude::*;
use vstd::string::StringExecFns;
use crate::api::{AppContainer, ContainerModel, LoopbackError, container_views, error_text};

verus! {

/// Request: list every identity.
pub struct GetAppContainers;

/// Request: exempt one identity, or remove its exemption.
pub struct SetLoopback {
    pub package_family_name: String,
    pub enabled: bool,
}

/// Request: make exactly these identities exempted.
pub struct SaveConfiguration {
    pub package_family_names: Vec<String>,
}

/// Reply: marks the start of a listing.
#[derive(Debug, Clone)]
pub struct AppContainersList {
    pub containers: Vec<String>,
}

/// Reply: one identity of a listing.
#[derive(Debug, Clone)]
pub struct AppContainerInfo {
    pub app_container_name: String,
    pub display_name: String,
    pub package_family_name: String,
    pub sid: Vec<u8>,
    pub sid_string: String,
    pub is_loopback_enabled: bool,
}

/// Reply to `SetLoopback`.
#[derive(Debug, Clone)]
pub struct SetLoopbackResult {
    pub success: bool,
    pub message: String,
}

/// Reply to `SaveConfiguration`.
#[derive(Debug, Clone)]
pub struct SaveConfigurationResult {
    pub success: bool,
    pub message: String,
}

/// One call of the setter that a reconcile sweep needs.
#[derive(Debug, Clone)]
pub struct ExemptionChange {
    pub package_family_name: String,
    pub enabled: bool,
}

impl View for AppContainerInfo {
    type V = ContainerModel;

    open spec fn view(&self) -> ContainerModel {
        ContainerModel {
            app_container_name: self.app_container_name@,
            display_name: self.display_name@,
            package_family_name: self.package_family_name@,
            sid: self.sid@,
            sid_string: self.sid_string@,
            is_loopback_enabled: self.is_loopback_enabled,
        }
    }
}

impl View for ExemptionChange {
    type V = (Seq<char>, bool);

    open spec fn view(&self) -> (Seq<char>, bool) {
        (self.package_family_name@, self.enabled)
    }
}

/// Views of listing records, in order.
pub open spec fn info_views(s: Seq<AppContainerInfo>) -> Seq<ContainerModel> {
    s.map_values(|c: AppContainerInfo| c@)
}

/// Views of planned changes, in order.
pub open spec fn change_views(s: Seq<ExemptionChange>) -> Seq<(Seq<char>, bool)> {
    s.map_values(|c: ExemptionChange| c@)
}

/// Character views of a list of names.
pub open spec fn names_view(s: Seq<String>) -> Seq<Seq<char>> {
    s.map_values(|n: String| n@)
}

/// The setter calls of a sweep, in listing order: one for each identity
/// whose desired state (named in `desired`) differs from its current one.
pub open spec fn planned(desired: Seq<Seq<char>>, cs: Seq<ContainerModel>) -> Seq<(Seq<char>, bool)>
    decreases cs.len(),
{
    if cs.len() == 0 {
        seq![]
    } else {
        let rest = planned(desired, cs.drop_last());
        let c = cs.last();
        let want = desired.contains(c.package_family_name);
        if want != c.is_loopback_enabled {
            rest.push((c.package_family_name, want))
        } else {
            rest
        }
    }
}

/// Lines `name: error` of the failed changes among the first `k`.
pub open spec fn failure_lines(
    plan: Seq<(Seq<char>, bool)>,
    outcomes: Seq<Result<(), LoopbackError>>,
    k: nat,
) -> Seq<Seq<char>>
    decreases k,
{
    if k == 0 {
        seq![]
    } else {
        let rest = failure_lines(plan, outcomes, (k - 1) as nat);
        match outcomes[k - 1] {
            Ok(_) => rest,
            Err(e) => rest.push(plan[k - 1].0 + ": "@ + error_text(e)),
        }
    }
}

/// Lines joined by newlines.
pub open spec fn join_lines(lines: Seq<Seq<char>>) -> Seq<char>
    decreases lines.len(),
{
    if lines.len() == 0 {
        seq![]
    } else if lines.len() == 1 {
        lines[0]
    } else {
        join_lines(lines.drop_last()) + "\n"@ + lines.last()
    }
}

/// Message of a sweep whose changes had these outcomes.
pub open spec fn sweep_text(plan: Seq<(Seq<char>, bool)>, outcomes: Seq<Result<(), LoopbackError>>) -> Seq<char> {
    let lines = failure_lines(plan, outcomes, outcomes.len());
    if lines.len() == 0 {
        "配置保存成功"@
    } else {
        "部分操作失败:\n"@ + join_lines(lines)
    }
}

impl GetAppContainers {
    /// The listing marker, then one record per identity; the marker alone
    /// when enumeration failed.
    pub fn handle(&self, enumeration: &Result<Vec<AppContainer>, LoopbackError>) -> (r: (
        AppContainersList,
        Vec<AppContainerInfo>,
    ))
        ensures
            r.0.containers@.len() == 0,
            *enumeration matches Ok(cs) ==> info_views(r.1@) == container_views(cs@),
            enumeration is Err ==> r.1@.len() == 0,
    {
        let marker = AppContainersList { containers: Vec::new() };
        let mut infos: Vec<AppContainerInfo> = Vec::new();
        match enumeration {
            Err(_) => {},
            Ok(cs) => {
                let mut i: usize = 0;
                while i < cs.len()
                    invariant
                        i <= cs@.len(),
                        info_views(infos@) =~= container_views(cs@.take(i as int)),
                    decreases cs@.len() - i,
                {
                    let c = &cs[i];
                    let sid = c.sid.clone();
                    assert(sid@ =~= c.sid@);
                    let info = AppContainerInfo {
                        app_container_name: c.app_container_name.clone(),
                        display_name: c.display_name.clone(),
                        package_family_name: c.package_family_name.clone(),
                        sid,
                        sid_string: c.sid_string.clone(),
                        is_loopback_enabled: c.is_loopback_enabled,
                    };
                    assert(info@ == cs@[i as int]@);
                    let ghost prev = infos@;
                    infos.push(info);
                    proof {
                        assert(info_views(infos@) =~= info_views(prev).push(info@));
                        assert(container_views(cs@.take(i as int + 1)) =~= container_views(
                            cs@.take(i as int),
                        ).push(cs@[i as int]@));
                    }
                    i = i + 1;
                }
                assert(cs@.take(cs@.len() as int) == cs@);
            },
        }
        (marker, infos)
    }
}

impl SetLoopback {
    /// Reply to a single setter call with its outcome.
    pub fn handle(self, outcome: &Result<(), LoopbackError>) -> (r: SetLoopbackResult)
        ensures
            r.success == outcome is Ok,
            outcome is Ok ==> r.message@ == "回环豁免设置成功"@,
            *outcome matches Err(e) ==> r.message@ == error_text(e),
    {
        match outcome {
            Ok(()) => SetLoopbackResult {
                success: true,
                message: String::from_str("回环豁免设置成功"),
            },
            Err(e) => SetLoopbackResult { success: false, message: e.message() },
        }
    }
}

/// `name` is one of `names`.
fn names_contain(names: &Vec<String>, name: &String) -> (r: bool)
    ensures
        r == names_view(names@).contains(name@),
{
    let mut i: usize = 0;
    while i < names.len()
        invariant
            i <= names@.len(),
            forall|j: int| 0 <= j < i ==> names@[j]@ != name@,
        decreases names@.len() - i,
    {
        if names[i] == *name {
            assert(names_view(names@)[i as int] == name@);
            return true;
        }
        i = i + 1;
    }
    proof {
        if names_view(names@).contains(name@) {
            let j = choose|j: int| 0 <= j < names_view(names@).len() && names_view(names@)[j] == name@;
            assert(names@[j]@ == name@);
        }
    }
    false
}

impl SaveConfiguration {
    /// The setter calls that move the current identities to the desired set.
    pub fn changes(&self, containers: &Vec<AppContainer>) -> (r: Vec<ExemptionChange>)
        ensures
            change_views(r@) == planned(
                names_view(self.package_family_names@),
                container_views(containers@),
            ),
    {
        let ghost desired = names_view(self.package_family_names@);
        let mut out: Vec<ExemptionChange> = Vec::new();
        let mut i: usize = 0;
        while i < containers.len()
            invariant
                i <= containers@.len(),
                desired == names_view(self.package_family_names@),
                change_views(out@) == planned(desired, container_views(containers@.take(i as int))),
            decreases containers@.len() - i,
        {
            let c = &containers[i];
            let want = names_contain(&self.package_family_names, &c.package_family_name);
            proof {
                assert(container_views(containers@.take(i as int + 1)).drop_last() =~= container_views(
                    containers@.take(i as int),
                ));
                assert(container_views(containers@.take(i as int + 1)).last() == c@);
            }
            if want != c.is_loopback_enabled {
                let change = ExemptionChange {
                    package_family_name: c.package_family_name.clone(),
                    enabled: want,
                };
                let ghost prev = out@;
                out.push(change);
                assert(change_views(out@) =~= change_views(prev).push(change@));
            }
            i = i + 1;
        }
        assert(containers@.take(containers@.len() as int) == containers@);
        out
    }

    /// Reply to a sweep: success only when enumeration succeeded and every
    /// planned change was committed; otherwise the message names each
    /// failed package with its error.
    pub fn handle(
        self,
        enumeration: &Result<Vec<AppContainer>, LoopbackError>,
        outcomes: &Vec<Result<(), LoopbackError>>,
    ) -> (r: SaveConfigurationResult)
        requires
            *enumeration matches Ok(cs) ==> outcomes@.len() == planned(
                names_view(self.package_family_names@),
                container_views(cs@),
            ).len(),
        ensures
            *enumeration matches Err(e) ==> !r.success && r.message@ == "无法枚举容器: "@
                + error_text(e),
            *enumeration matches Ok(cs) ==> r.success == (forall|i: int|
                0 <= i < outcomes@.len() ==> outcomes@[i] is Ok),
            *enumeration matches Ok(cs) ==> r.message@ == sweep_text(
                planned(names_view(self.package_family_names@), container_views(cs@)),
                outcomes@,
            ),
    {
        let cs = match enumeration {
            Err(e) => {
                let s = String::from_str("无法枚举容器: ");
                let m = e.message();
                return SaveConfigurationResult { success: false, message: s.concat(m.as_str()) };
            },
            Ok(cs) => cs,
        };
        let plan = self.changes(cs);
        let ghost pv = change_views(plan@);
        let mut lines: Vec<String> = Vec::new();
        let mut i: usize = 0;
        while i < outcomes.len()
            invariant
                i <= outcomes@.len(),
                outcomes@.len() == plan@.len(),
                pv == change_views(plan@),
                names_view(lines@) == failure_lines(pv, outcomes@, i as nat),
                lines@.len() == 0 <==> forall|j: int| 0 <= j < i ==> outcomes@[j] is Ok,
            decreases outcomes@.len() - i,
        {
            match &outcomes[i] {
                Ok(()) => {},
                Err(e) => {
                    let name = plan[i].package_family_name.clone();
                    let line = name.concat(": ");
                    let m = e.message();
                    let line = line.concat(m.as_str());
                    assert(pv[i as int].0 == plan@[i as int].package_family_name@);
                    let ghost prev = lines@;
                    lines.push(line);
                    assert(names_view(lines@) =~= names_view(prev).push(line@));
                },
            }
            i = i + 1;
        }
        if lines.len() == 0 {
            SaveConfigurationResult { success: true, message: String::from_str("配置保存成功") }
        } else {
            let head = String::from_str("部分操作失败:\n");
            let body = join(&lines);
            SaveConfigurationResult { success: false, message: head.concat(body.as_str()) }
        }
    }
}

/// Lines joined by newlines.
fn join(lines: &Vec<String>) -> (r: String)
    ensures
        r@ == join_lines(names_view(lines@)),
{
    let mut s = String::new();
    let mut i: usize = 0;
    while i < lines.len()
        invariant
            i <= lines@.len(),
            s@ == join_lines(names_view(lines@.take(i as int))),
        decreases lines@.len() - i,
    {
        proof {
            assert(names_view(lines@.take(i as int + 1)).drop_last() =~= names_view(lines@.take(i as int)));
            assert(names_view(lines@.take(i as int + 1)).last() == lines@[i as int]@);
        }
        if i > 0 {
            s.append("\n");
        } else {
            assert(names_view(lines@.take(1))[0] == lines@[0]@);
        }
        s.append(lines[i].as_str());
        i = i + 1;
    }
    assert(lines@.take(lines@.len() as int) == lines@);
    s
}

} // verus!
