//! Leases of connectors to clients that drive the display behind them on their own.
use crate::backend::model::device_views;
use crate::backend::model::lemma_device_views_update;
use crate::backend::model::DeviceView;
use crate::backend::udev::NonDesktopConnector;
use crate::backend::udev::Udev;
use crate::search::first_where;
use crate::search::is_first;
use crate::search::lemma_filter_members;
use crate::search::lemma_first_found;
use crate::search::lemma_first_missing;
use crate::search::lemma_first_where;
use vstd::prelude::*;

verus! {

broadcast use vstd::std_specs::hash::group_hash_axioms;

/// What a client gets of a connector: its display controller, and a plane to draw on.
#[derive(Clone, Copy, PartialEq, Eq, Structural, Debug)]
pub struct LeaseGrant {
    pub connector: u32,
    pub crtc: u32,
    pub plane: u32,
}

/// How far the answer to a client's request has come.
#[derive(Debug)]
pub enum LeaseStage {
    /// The primary planes of this display controller are asked for.
    Planes { crtc: u32 },
    /// The planes are claimed one after the other, until one can be had.
    Claim { crtc: u32, planes: Vec<u32>, tried: usize },
    Granted,
    /// The request is turned down; the device may have said why.
    Rejected { with_cause: bool },
}

/// The answer to a client's request for a lease, while it is being worked out.
#[derive(Debug)]
pub struct LeaseNegotiation {
    /// The connectors that the client asks for.
    pub connectors: Vec<u32>,
    /// The connectors that are there for lease.
    pub available: Vec<NonDesktopConnector>,
    /// What the client gets of the connectors that have been dealt with.
    pub granted: Vec<LeaseGrant>,
    pub stage: LeaseStage,
}

/// The model of a [`LeaseStage`].
pub enum StageView {
    Planes { crtc: u32 },
    Claim { crtc: u32, planes: Seq<u32>, tried: int },
    Granted,
    Rejected { with_cause: bool },
}

/// The model of a [`LeaseNegotiation`].
pub struct LeaseView {
    pub connectors: Seq<u32>,
    pub available: Seq<NonDesktopConnector>,
    pub granted: Seq<LeaseGrant>,
    pub stage: StageView,
}

impl View for LeaseStage {
    type V = StageView;

    open spec fn view(&self) -> StageView {
        match self {
            LeaseStage::Planes { crtc } => StageView::Planes { crtc: *crtc },
            LeaseStage::Claim { crtc, planes, tried } => StageView::Claim {
                crtc: *crtc,
                planes: planes@,
                tried: *tried as int,
            },
            LeaseStage::Granted => StageView::Granted,
            LeaseStage::Rejected { with_cause } => StageView::Rejected { with_cause: *with_cause },
        }
    }
}

impl View for LeaseNegotiation {
    type V = LeaseView;

    open spec fn view(&self) -> LeaseView {
        LeaseView {
            connectors: self.connectors@,
            available: self.available@,
            granted: self.granted@,
            stage: self.stage@,
        }
    }
}

/// The entry is for this connector.
pub open spec fn is_connector(connector: u32) -> spec_fn(NonDesktopConnector) -> bool {
    |c: NonDesktopConnector| c.connector == connector
}

impl LeaseView {
    /// The negotiation goes on: there is a connector to deal with, and where its planes are
    /// being claimed, one that has not been tried.
    pub open spec fn inv(self) -> bool {
        match self.stage {
            StageView::Planes { .. } => self.granted.len() < self.connectors.len(),
            StageView::Claim { planes, tried, .. } => {
                &&& self.granted.len() < self.connectors.len()
                &&& 0 <= tried < planes.len()
            },
            _ => true,
        }
    }

    /// The negotiation at the next connector that the client asks for. It is over when there
    /// is none, or when the connector is not there for lease.
    pub open spec fn at_next_connector(
        connectors: Seq<u32>,
        available: Seq<NonDesktopConnector>,
        granted: Seq<LeaseGrant>,
    ) -> LeaseView {
        let stage = if granted.len() >= connectors.len() {
            StageView::Granted
        } else {
            match first_where(available, is_connector(connectors[granted.len() as int])) {
                Some(i) => StageView::Planes { crtc: available[i].crtc },
                None => StageView::Rejected { with_cause: false },
            }
        };
        LeaseView { connectors, available, granted, stage }
    }

    /// The negotiation once the planes are known, or could not be read.
    pub open spec fn with_planes(self, planes: Option<Seq<u32>>) -> LeaseView {
        match self.stage {
            StageView::Planes { crtc } => LeaseView {
                stage: match planes {
                    Some(ps) => if ps.len() > 0 {
                        StageView::Claim { crtc, planes: ps, tried: 0 }
                    } else {
                        StageView::Rejected { with_cause: false }
                    },
                    None => StageView::Rejected { with_cause: true },
                },
                ..self
            },
            _ => self,
        }
    }

    /// The plane to claim next, and the display controller that it is for.
    pub open spec fn wanted(self) -> Option<(u32, u32)> {
        match self.stage {
            StageView::Claim { crtc, planes, tried } => Some((planes[tried], crtc)),
            _ => None,
        }
    }

    /// The negotiation once a plane has been claimed, or could not be had.
    pub open spec fn with_claim(self, claimed: bool) -> LeaseView {
        match self.stage {
            StageView::Claim { crtc, planes, tried } => if claimed {
                LeaseView::at_next_connector(
                    self.connectors,
                    self.available,
                    self.granted.push(
                        LeaseGrant {
                            connector: self.connectors[self.granted.len() as int],
                            crtc,
                            plane: planes[tried],
                        },
                    ),
                )
            } else {
                LeaseView {
                    stage: if tried + 1 < planes.len() {
                        StageView::Claim { crtc, planes, tried: tried + 1 }
                    } else {
                        StageView::Rejected { with_cause: false }
                    },
                    ..self
                }
            },
            _ => self,
        }
    }
}

fn available_index(available: &Vec<NonDesktopConnector>, connector: u32) -> (r: Option<usize>)
    ensures
        match first_where(available@, is_connector(connector)) {
            Some(i) => r matches Some(k) && k == i && k < available@.len(),
            None => r is None,
        },
{
    let ghost wanted = is_connector(connector);
    let mut i: usize = 0;
    while i < available.len()
        invariant
            i <= available.len(),
            wanted == is_connector(connector),
            forall|j: int| 0 <= j < i ==> !wanted(#[trigger] available@[j]),
        decreases available.len() - i,
    {
        if available[i].connector == connector {
            proof {
                lemma_first_found(available@, wanted, i as int);
            }
            return Some(i);
        }
        i += 1;
    }
    proof {
        lemma_first_missing(available@, wanted);
    }
    None
}

fn next_stage(
    connectors: &Vec<u32>,
    available: &Vec<NonDesktopConnector>,
    granted: &Vec<LeaseGrant>,
) -> (r: LeaseStage)
    ensures
        r@ == LeaseView::at_next_connector(connectors@, available@, granted@).stage,
{
    if granted.len() >= connectors.len() {
        return LeaseStage::Granted;
    }
    match available_index(available, connectors[granted.len()]) {
        Some(i) => LeaseStage::Planes { crtc: available[i].crtc },
        None => LeaseStage::Rejected { with_cause: false },
    }
}

impl LeaseNegotiation {
    /// Goes on once the primary planes of the display controller are known, or could not be
    /// read.
    pub fn planes(&mut self, planes: Option<Vec<u32>>)
        requires
            old(self)@.inv(),
            old(self)@.stage is Planes,
        ensures
            final(self)@ == old(self)@.with_planes(
                match planes {
                    Some(ps) => Some(ps@),
                    None => None,
                },
            ),
            final(self)@.inv(),
    {
        if let LeaseStage::Planes { crtc } = self.stage {
            self.stage =
            match planes {
                Some(planes) => if planes.len() > 0 {
                    LeaseStage::Claim { crtc, planes, tried: 0 }
                } else {
                    LeaseStage::Rejected { with_cause: false }
                },
                None => LeaseStage::Rejected { with_cause: true },
            };
        }
    }

    /// The plane to claim, and the display controller that it is for.
    pub fn wanted_plane(&self) -> (r: Option<(u32, u32)>)
        requires
            self@.inv(),
        ensures
            r == match self@.stage {
                StageView::Claim { crtc, planes, tried } => Some((planes[tried], crtc)),
                _ => None,
            },
            r == self@.wanted(),
    {
        match &self.stage {
            LeaseStage::Claim { crtc, planes, tried } => Some((planes[*tried], *crtc)),
            _ => None,
        }
    }

    /// Goes on once a plane has been claimed, or could not be had.
    pub fn claimed(&mut self, claimed: bool)
        requires
            old(self)@.inv(),
            old(self)@.stage is Claim,
        ensures
            final(self)@ == old(self)@.with_claim(claimed),
            final(self)@.inv(),
    {
        let mut stage = LeaseStage::Granted;
        std::mem::swap(&mut stage, &mut self.stage);
        if let LeaseStage::Claim { crtc, planes, tried } = stage {
            if claimed {
                let connector = self.connectors[self.granted.len()];
                self.granted.push(LeaseGrant { connector, crtc, plane: planes[tried] });
                self.stage = next_stage(&self.connectors, &self.available, &self.granted);
            } else if planes.len() - tried > 1 {
                self.stage = LeaseStage::Claim { crtc, planes, tried: tried + 1 };
            } else {
                self.stage = LeaseStage::Rejected { with_cause: false };
            }
        }
    }
}

/// The lease has another name.
pub open spec fn other_than(lease: u32) -> spec_fn(u32) -> bool {
    |l: u32| l != lease
}

/// The leases without those of this name.
pub open spec fn without_lease(leases: Seq<u32>, lease: u32) -> Seq<u32> {
    leases.filter(other_than(lease))
}

fn copy_connectors(v: &Vec<NonDesktopConnector>) -> (r: Vec<NonDesktopConnector>)
    ensures
        r@ == v@,
{
    let mut r: Vec<NonDesktopConnector> = Vec::new();
    let mut i: usize = 0;
    while i < v.len()
        invariant
            i <= v.len(),
            r@ == v@.take(i as int),
        decreases v.len() - i,
    {
        r.push(v[i]);
        i += 1;
        proof {
            assert(r@ =~= v@.take(i as int));
        }
    }
    proof {
        assert(v@.take(v@.len() as int) =~= v@);
    }
    r
}

impl Udev {
    /// Starts to work out the answer to a client's request for a lease of connectors.
    pub fn lease_request(&self, node: u64, connectors: Vec<u32>) -> (r: LeaseNegotiation)
        requires
            self.devices@.contains_key(node),
        ensures
            r@ == LeaseView::at_next_connector(
                connectors@,
                self.devices@[node].non_desktop_connectors@,
                Seq::empty(),
            ),
            r@.inv(),
    {
        let available = match self.devices.get(&node) {
            Some(device) => copy_connectors(&device.non_desktop_connectors),
            None => Vec::new(),
        };
        let granted: Vec<LeaseGrant> = Vec::new();
        let stage = next_stage(&connectors, &available, &granted);
        LeaseNegotiation { connectors, available, granted, stage }
    }

    /// Remembers a lease that a client holds.
    pub fn new_active_lease(&mut self, node: u64, lease: u32)
        requires
            old(self).devices@.contains_key(node),
        ensures
            final(self).primary_gpu == old(self).primary_gpu,
            ({
                let before = device_views(old(self).devices@);
                device_views(final(self).devices@) == before.insert(
                    node,
                    DeviceView {
                        active_leases: before[node].active_leases.push(lease),
                        ..before[node]
                    },
                )
            }),
    {
        let ghost devices_before = self.devices@;
        if let Some(mut device) = self.devices.remove(&node) {
            device.active_leases.push(lease);
            proof {
                lemma_device_views_update(devices_before, node, device);
            }
            self.devices.insert(node, device);
        }
    }

    /// Forgets a lease that has ended.
    pub fn lease_destroyed(&mut self, node: u64, lease: u32)
        requires
            old(self).devices@.contains_key(node),
        ensures
            final(self).primary_gpu == old(self).primary_gpu,
            ({
                let before = device_views(old(self).devices@);
                device_views(final(self).devices@) == before.insert(
                    node,
                    DeviceView {
                        active_leases: without_lease(before[node].active_leases, lease),
                        ..before[node]
                    },
                )
            }),
    {
        let ghost devices_before = self.devices@;
        if let Some(mut device) = self.devices.remove(&node) {
            device.active_leases = other_leases(&device.active_leases, lease);
            proof {
                lemma_device_views_update(devices_before, node, device);
            }
            self.devices.insert(node, device);
        }
    }
}

fn other_leases(leases: &Vec<u32>, lease: u32) -> (r: Vec<u32>)
    ensures
        r@ == without_lease(leases@, lease),
{
    let ghost kept = other_than(lease);
    let mut r: Vec<u32> = Vec::new();
    let mut i: usize = 0;
    proof {
        assert(leases@.take(0) =~= Seq::<u32>::empty());
        reveal(Seq::filter);
    }
    while i < leases.len()
        invariant
            i <= leases.len(),
            kept == other_than(lease),
            r@ == leases@.take(i as int).filter(kept),
        decreases leases.len() - i,
    {
        proof {
            let next = leases@.take(i + 1);
            assert(next.drop_last() =~= leases@.take(i as int));
            assert(next.last() == leases@[i as int]);
            reveal(Seq::filter);
        }
        if leases[i] != lease {
            r.push(leases[i]);
        }
        i += 1;
    }
    proof {
        assert(leases@.take(leases@.len() as int) =~= leases@);
    }
    r
}

// ---------------------------------------------------------------------------
// Whole negotiations
// ---------------------------------------------------------------------------

/// What a device answers during a negotiation. `planes` gives the primary planes that it
/// reports for the connector that the client asks for in the given place; `claims` says
/// whether it lets go of a plane, by the connector's place and the plane's.
pub struct DeviceAnswers {
    pub planes: spec_fn(int) -> Option<Seq<u32>>,
    pub claims: spec_fn(int, int) -> bool,
}

/// The place of a plane that can be had for a connector.
pub open spec fn can_claim(answers: DeviceAnswers, k: int) -> spec_fn(int) -> bool {
    |j: int| (answers.claims)(k, j)
}

/// The places of the planes.
pub open spec fn places(planes: Seq<u32>) -> Seq<int> {
    Seq::new(planes.len(), |j: int| j)
}

/// What a client gets of one connector, or whether the device said why not.
pub open spec fn grant_of(
    connectors: Seq<u32>,
    available: Seq<NonDesktopConnector>,
    answers: DeviceAnswers,
    k: int,
) -> Result<LeaseGrant, bool> {
    match first_where(available, is_connector(connectors[k])) {
        None => Err(false),
        Some(i) => match (answers.planes)(k) {
            None => Err(true),
            Some(planes) => match first_where(places(planes), can_claim(answers, k)) {
                None => Err(false),
                Some(j) => Ok(
                    LeaseGrant { connector: connectors[k], crtc: available[i].crtc, plane: planes[j] },
                ),
            },
        },
    }
}

/// The negotiation after one more answer of the device.
pub open spec fn answered(v: LeaseView, answers: DeviceAnswers) -> LeaseView {
    let k = v.granted.len() as int;
    match v.stage {
        StageView::Planes { .. } => v.with_planes((answers.planes)(k)),
        StageView::Claim { tried, .. } => v.with_claim((answers.claims)(k, tried)),
        _ => v,
    }
}

/// The end of a negotiation with a device that answers like this.
pub open spec fn settled(v: LeaseView, answers: DeviceAnswers) -> LeaseView
    decreases
            v.connectors.len() - v.granted.len(),
            match v.stage {
                StageView::Planes { .. } => 1int,
                _ => 0int,
            },
            match v.stage {
                StageView::Claim { planes, tried, .. } => planes.len() - tried,
                _ => 0,
            },
{
    if v.inv() && (v.stage is Planes || v.stage is Claim) {
        settled(answered(v, answers), answers)
    } else {
        v
    }
}

/// The negotiation stands at the connector in place `k`, and before it every one was
/// granted what [`grant_of`] says.
pub open spec fn granted_up_to(
    v: LeaseView,
    connectors: Seq<u32>,
    available: Seq<NonDesktopConnector>,
    answers: DeviceAnswers,
    k: int,
) -> bool {
    &&& v.connectors == connectors
    &&& v.available == available
    &&& v.granted.len() == k
    &&& k <= connectors.len()
    &&& forall|n: int|
        0 <= n < k ==> grant_of(connectors, available, answers, n) == Ok::<LeaseGrant, bool>(
            #[trigger] v.granted[n],
        )
}

proof fn lemma_claiming(v: LeaseView, answers: DeviceAnswers, i: int)
    requires
        v.inv(),
        v.stage is Claim,
        first_where(v.available, is_connector(v.connectors[v.granted.len() as int])) == Some(i),
        ({
            let k = v.granted.len() as int;
            &&& (answers.planes)(k) == Some(v.stage->Claim_planes)
            &&& v.stage->Claim_crtc == v.available[i].crtc
            &&& forall|j: int| 0 <= j < v.stage->Claim_tried ==> !#[trigger] (answers.claims)(k, j)
        }),
    ensures
        ({
            let k = v.granted.len() as int;
            match grant_of(v.connectors, v.available, answers, k) {
                Ok(grant) => settled(v, answers) == settled(
                    LeaseView::at_next_connector(v.connectors, v.available, v.granted.push(grant)),
                    answers,
                ),
                Err(with_cause) => {
                    &&& !with_cause
                    &&& settled(v, answers) == (LeaseView {
                        stage: StageView::Rejected { with_cause: false },
                        ..v
                    })
                },
            }
        }),
    decreases v.stage->Claim_planes.len() - v.stage->Claim_tried,
{
    let k = v.granted.len() as int;
    let planes = v.stage->Claim_planes;
    let tried = v.stage->Claim_tried;
    let all = places(planes);
    let wanted = can_claim(answers, k);
    if (answers.claims)(k, tried) {
        assert forall|j: int| 0 <= j < tried implies !wanted(#[trigger] all[j]) by {
            assert(!(answers.claims)(k, j));
        }
        lemma_first_found(all, wanted, tried);
    } else if tried + 1 < planes.len() {
        lemma_claiming(answered(v, answers), answers, i);
    } else {
        assert forall|j: int| 0 <= j < all.len() implies !wanted(#[trigger] all[j]) by {
            assert(!(answers.claims)(k, j));
        }
        lemma_first_missing(all, wanted);
        assert(settled(answered(v, answers), answers) == answered(v, answers));
    }
}

proof fn lemma_settled(
    v: LeaseView,
    connectors: Seq<u32>,
    available: Seq<NonDesktopConnector>,
    answers: DeviceAnswers,
    k: int,
)
    requires
        granted_up_to(v, connectors, available, answers, k),
        v == LeaseView::at_next_connector(connectors, available, v.granted),
    ensures
        ({
            let end = settled(v, answers);
            match end.stage {
                StageView::Granted => granted_up_to(
                    end,
                    connectors,
                    available,
                    answers,
                    connectors.len() as int,
                ),
                StageView::Rejected { with_cause } => {
                    let n = end.granted.len() as int;
                    &&& n < connectors.len()
                    &&& granted_up_to(end, connectors, available, answers, n)
                    &&& grant_of(connectors, available, answers, n) == Err::<LeaseGrant, bool>(
                        with_cause,
                    )
                },
                _ => false,
            }
        }),
    decreases connectors.len() - k,
{
    if k < connectors.len() {
        match first_where(available, is_connector(connectors[k])) {
            None => {},
            Some(i) => {
                match (answers.planes)(k) {
                    None => {
                        assert(settled(answered(v, answers), answers) == answered(v, answers));
                    },
                    Some(planes) => {
                        let w = answered(v, answers);
                        if planes.len() == 0 {
                            lemma_first_missing(places(planes), can_claim(answers, k));
                            assert(settled(w, answers) == w);
                        } else {
                            lemma_claiming(w, answers, i);
                            match grant_of(connectors, available, answers, k) {
                                Ok(grant) => {
                                    let next = LeaseView::at_next_connector(
                                        connectors,
                                        available,
                                        v.granted.push(grant),
                                    );
                                    assert(granted_up_to(
                                        next,
                                        connectors,
                                        available,
                                        answers,
                                        k + 1,
                                    ));
                                    lemma_settled(next, connectors, available, answers, k + 1);
                                },
                                Err(_) => {},
                            }
                        }
                    },
                }
            },
        }
    }
}

/// A request is granted exactly when something can be granted of every connector that the
/// client asks for, and the client then gets just that, in the order of the request.
pub proof fn law_lease_granted_in_full(
    connectors: Seq<u32>,
    available: Seq<NonDesktopConnector>,
    answers: DeviceAnswers,
)
    ensures
        ({
            let end = settled(
                LeaseView::at_next_connector(connectors, available, Seq::empty()),
                answers,
            );
            &&& end.stage is Granted <==> forall|k: int|
                0 <= k < connectors.len() ==> (#[trigger] grant_of(
                    connectors,
                    available,
                    answers,
                    k,
                )) is Ok
            &&& end.stage is Granted ==> {
                &&& end.granted.len() == connectors.len()
                &&& forall|k: int|
                    0 <= k < connectors.len() ==> grant_of(connectors, available, answers, k)
                        == Ok::<LeaseGrant, bool>(#[trigger] end.granted[k])
            }
        }),
{
    let start = LeaseView::at_next_connector(connectors, available, Seq::empty());
    lemma_settled(start, connectors, available, answers, 0);
    let end = settled(start, answers);
    if end.stage is Granted {
        assert forall|k: int| 0 <= k < connectors.len() implies (#[trigger] grant_of(
            connectors,
            available,
            answers,
            k,
        )) is Ok by {
            assert(grant_of(connectors, available, answers, k) == Ok::<LeaseGrant, bool>(
                end.granted[k],
            ));
        }
    }
}

/// A request that is not granted is turned down, for the sake of the first connector of
/// which nothing can be granted; the device said why exactly where it could not report that
/// connector's planes.
pub proof fn law_lease_rejected_at_first_obstacle(
    connectors: Seq<u32>,
    available: Seq<NonDesktopConnector>,
    answers: DeviceAnswers,
    k: int,
)
    requires
        0 <= k < connectors.len(),
        grant_of(connectors, available, answers, k) is Err,
        forall|n: int|
            0 <= n < k ==> (#[trigger] grant_of(connectors, available, answers, n)) is Ok,
    ensures
        settled(
            LeaseView::at_next_connector(connectors, available, Seq::empty()),
            answers,
        ).stage == (StageView::Rejected {
            with_cause: first_where(available, is_connector(connectors[k])) is Some && (
            answers.planes)(k) is None,
        }),
{
    let start = LeaseView::at_next_connector(connectors, available, Seq::empty());
    lemma_settled(start, connectors, available, answers, 0);
    let end = settled(start, answers);
    let n = end.granted.len() as int;
    if end.stage is Granted {
        assert(grant_of(connectors, available, answers, k) == Ok::<LeaseGrant, bool>(
            end.granted[k],
        ));
    } else if k < n {
        assert(grant_of(connectors, available, answers, k) == Ok::<LeaseGrant, bool>(
            end.granted[k],
        ));
    }
}

/// A client only ever gets connectors that it asked for and that are there for lease, each
/// with the display controller that drives it.
pub proof fn law_lease_stays_within_request(
    connectors: Seq<u32>,
    available: Seq<NonDesktopConnector>,
    answers: DeviceAnswers,
    k: int,
)
    requires
        0 <= k < settled(
            LeaseView::at_next_connector(connectors, available, Seq::empty()),
            answers,
        ).granted.len(),
    ensures
        ({
            let grant = settled(
                LeaseView::at_next_connector(connectors, available, Seq::empty()),
                answers,
            ).granted[k];
            &&& connectors.contains(grant.connector)
            &&& available.contains(
                NonDesktopConnector { connector: grant.connector, crtc: grant.crtc },
            )
        }),
{
    let start = LeaseView::at_next_connector(connectors, available, Seq::empty());
    lemma_settled(start, connectors, available, answers, 0);
    let end = settled(start, answers);
    let grant = end.granted[k];
    assert(grant_of(connectors, available, answers, k) == Ok::<LeaseGrant, bool>(grant));
    lemma_first_where(available, is_connector(connectors[k]));
    let i = first_where(available, is_connector(connectors[k]))->Some_0;
    assert(is_first(available, is_connector(connectors[k]), i));
    assert(connectors[k] == grant.connector);
    assert(available[i] == (NonDesktopConnector { connector: grant.connector, crtc: grant.crtc }));
}

/// A lease that has ended is no longer held, and every other is.
pub proof fn law_ended_lease_is_gone(leases: Seq<u32>, lease: u32, other: u32)
    ensures
        !without_lease(leases, lease).contains(lease),
        other != lease ==> (without_lease(leases, lease).contains(other) <==> leases.contains(
            other,
        )),
        without_lease(leases.push(lease), lease) == without_lease(leases, lease),
{
    lemma_filter_members(leases, other_than(lease), lease);
    lemma_filter_members(leases, other_than(lease), other);
    assert(leases.push(lease).drop_last() =~= leases);
    reveal(Seq::filter);
}

/// What a client gets of a connector: the connector that it asked for, with the display
/// controller of the first entry for that connector, and the first plane that the device
/// lets go of.
pub proof fn law_grant_is_the_first_to_be_had(
    connectors: Seq<u32>,
    available: Seq<NonDesktopConnector>,
    answers: DeviceAnswers,
    k: int,
    i: int,
    j: int,
)
    requires
        0 <= i < available.len(),
        available[i].connector == connectors[k],
        forall|n: int| 0 <= n < i ==> (#[trigger] available[n]).connector != connectors[k],
        (answers.planes)(k) is Some,
        0 <= j < (answers.planes)(k)->Some_0.len(),
        (answers.claims)(k, j),
        forall|n: int| 0 <= n < j ==> !#[trigger] (answers.claims)(k, n),
    ensures
        grant_of(connectors, available, answers, k) matches Ok(grant) && grant.connector
            == connectors[k] && grant.crtc == available[i].crtc && grant.plane == (answers.planes)(
            k,
        )->Some_0[j],
{
    let planes = (answers.planes)(k)->Some_0;
    let all = places(planes);
    lemma_first_found(available, is_connector(connectors[k]), i);
    assert forall|n: int| 0 <= n < j implies !can_claim(answers, k)(#[trigger] all[n]) by {
        assert(!(answers.claims)(k, n));
    }
    lemma_first_found(all, can_claim(answers, k), j);
}

/// Nothing is granted of a connector that is not there for lease, whose planes cannot be
/// read, or of whose planes the device lets go of none. Only where the planes of a connector
/// that is there cannot be read does the device say why.
pub proof fn law_grant_fails_for_a_reason(
    connectors: Seq<u32>,
    available: Seq<NonDesktopConnector>,
    answers: DeviceAnswers,
    k: int,
)
    ensures
        ({
            let there = exists|i: int|
                0 <= i < available.len() && (#[trigger] available[i]).connector == connectors[k];
            let readable = (answers.planes)(k) is Some;
            let grant = grant_of(connectors, available, answers, k);
            &&& grant == Err::<LeaseGrant, bool>(true) <==> there && !readable
            &&& !there ==> grant == Err::<LeaseGrant, bool>(false)
            &&& (forall|j: int|
                0 <= j < (answers.planes)(k)->Some_0.len() ==> !#[trigger] (answers.claims)(k, j))
                && readable ==> grant == Err::<LeaseGrant, bool>(false)
        }),
{
    let wanted = is_connector(connectors[k]);
    lemma_first_where(available, wanted);
    match first_where(available, wanted) {
        Some(i) => {
            assert(available[i].connector == connectors[k]);
            if let Some(planes) = (answers.planes)(k) {
                if forall|j: int| 0 <= j < planes.len() ==> !#[trigger] (answers.claims)(k, j) {
                    let all = places(planes);
                    assert forall|n: int| 0 <= n < all.len() implies !can_claim(answers, k)(
                        #[trigger] all[n],
                    ) by {
                        assert(!(answers.claims)(k, n));
                    }
                    lemma_first_missing(all, can_claim(answers, k));
                }
            }
        },
        None => {
            assert forall|i: int| 0 <= i < available.len() implies (#[trigger] available[i]).connector
                != connectors[k] by {
                assert(!wanted(available[i]));
            }
        },
    }
}

/// A negotiation begins with the first connector that the client asks for, and asks for the
/// planes of the display controller of the first entry for it. A request for nothing is
/// granted, and one for a connector that is not there is turned down without a cause.
pub proof fn law_negotiation_asks_for_the_next_connector(
    connectors: Seq<u32>,
    available: Seq<NonDesktopConnector>,
    granted: Seq<LeaseGrant>,
    i: int,
)
    ensures
        ({
            let v = LeaseView::at_next_connector(connectors, available, granted);
            let wanted = connectors[granted.len() as int];
            &&& v.connectors == connectors
            &&& v.available == available
            &&& v.granted == granted
            &&& granted.len() >= connectors.len() ==> v.stage == StageView::Granted
            &&& granted.len() < connectors.len() && 0 <= i < available.len()
                && available[i].connector == wanted && (forall|n: int|
                0 <= n < i ==> (#[trigger] available[n]).connector != wanted) ==> v.stage == (
            StageView::Planes { crtc: available[i].crtc })
            &&& granted.len() < connectors.len() && (forall|n: int|
                0 <= n < available.len() ==> (#[trigger] available[n]).connector != wanted)
                ==> v.stage == (StageView::Rejected { with_cause: false })
        }),
{
    let wanted = connectors[granted.len() as int];
    if 0 <= i < available.len() && available[i].connector == wanted && forall|n: int|
        0 <= n < i ==> (#[trigger] available[n]).connector != wanted {
        lemma_first_found(available, is_connector(wanted), i);
    }
    if forall|n: int| 0 <= n < available.len() ==> (#[trigger] available[n]).connector != wanted {
        lemma_first_missing(available, is_connector(wanted));
    }
}

/// The planes of a display controller are claimed from the first on; without any the request
/// is turned down, with a cause where they could not be read. A plane that can be had goes to
/// the client together with its display controller and its connector; one that cannot makes
/// the next one tried, and after the last one the request is turned down.
pub proof fn law_planes_are_tried_in_turn(v: LeaseView, crtc: u32, planes: Seq<u32>, tried: int)
    requires
        v.granted.len() < v.connectors.len(),
        0 <= tried < planes.len(),
    ensures
        ({
            let asking = LeaseView { stage: StageView::Planes { crtc }, ..v };
            let claiming = LeaseView { stage: StageView::Claim { crtc, planes, tried }, ..v };
            let lost = claiming.with_claim(false);
            let won = claiming.with_claim(true);
            let n = v.granted.len() as int;
            &&& asking.with_planes(Some(planes)) == (LeaseView {
                stage: StageView::Claim { crtc, planes, tried: 0 },
                ..v
            })
            &&& asking.with_planes(Some(Seq::empty())) == (LeaseView {
                stage: StageView::Rejected { with_cause: false },
                ..v
            })
            &&& asking.with_planes(None) == (LeaseView {
                stage: StageView::Rejected { with_cause: true },
                ..v
            })
            &&& lost.granted == v.granted
            &&& tried < planes.len() - 1 ==> lost.stage == (StageView::Claim {
                crtc,
                planes,
                tried: tried + 1,
            })
            &&& tried == planes.len() - 1 ==> lost.stage == (StageView::Rejected {
                with_cause: false,
            })
            &&& won.granted.len() == n + 1
            &&& won.granted.take(n) == v.granted
            &&& won.granted[n].connector == v.connectors[n]
            &&& won.granted[n].crtc == crtc
            &&& won.granted[n].plane == planes[tried]
            &&& won.stage == LeaseView::at_next_connector(
                v.connectors,
                v.available,
                won.granted,
            ).stage
            &&& won.connectors == v.connectors && won.available == v.available
            &&& lost.connectors == v.connectors && lost.available == v.available
        }),
{
    let claiming = LeaseView { stage: StageView::Claim { crtc, planes, tried }, ..v };
    assert(claiming.with_claim(true).granted.take(v.granted.len() as int) =~= v.granted);
}

/// A lease that has ended is dropped wherever it stands, and the others keep their order.
pub proof fn law_leases_keep_their_order(leases: Seq<u32>, lease: u32, other: u32)
    ensures
        without_lease(Seq::empty(), lease).len() == 0,
        without_lease(leases.push(other), lease) == (if other == lease {
            without_lease(leases, lease)
        } else {
            without_lease(leases, lease).push(other)
        }),
{
    assert(leases.push(other).drop_last() =~= leases);
    reveal(Seq::filter);
}

/// The model of a negotiation has every part of it.
pub proof fn law_negotiation_model_is_complete(n: LeaseNegotiation)
    ensures
        n@.connectors == n.connectors@,
        n@.available == n.available@,
        n@.granted == n.granted@,
        match n.stage {
            LeaseStage::Planes { crtc } => n@.stage == (StageView::Planes { crtc }),
            LeaseStage::Claim { crtc, planes, tried } => n@.stage == (StageView::Claim {
                crtc,
                planes: planes@,
                tried: tried as int,
            }),
            LeaseStage::Granted => n@.stage == StageView::Granted,
            LeaseStage::Rejected { with_cause } => n@.stage == (StageView::Rejected { with_cause }),
        },
{
}

/// The plane that is wanted is the one that the client gets if it can be had, together with
/// the display controller that it was wanted for. A plane is wanted exactly while planes are
/// being claimed.
pub proof fn law_wanted_plane_is_granted(v: LeaseView)
    requires
        v.inv(),
    ensures
        v.wanted() is Some <==> v.stage is Claim,
        v.wanted() matches Some(claim) ==> {
            let won = v.with_claim(true).granted;
            &&& won.len() == v.granted.len() + 1
            &&& won.last().plane == claim.0
            &&& won.last().crtc == claim.1
        },
{
}

} // verus!
