//! The plan for bringing images to hosts: which host runs which image, which of them lack it, and
//! what went wrong on the way.
use vstd::prelude::*;

use crate::config;
use crate::config::{AssignmentView, PeerAssignment};
use crate::docker_mgr;
use crate::text;

verus! {

// ---------------------------------------------------------------------------------------------
// Who runs what
// ---------------------------------------------------------------------------------------------
/// An image and the hosts that it is meant for.
pub struct ImageHosts {
    pub image: String,
    pub hosts: Vec<String>,
}

/// Whether an image is listed for a host.
pub open spec fn lists(groups: Seq<ImageHosts>, image: Seq<char>, host: Seq<char>) -> bool {
    exists|g: int|
        0 <= g < groups.len() && (#[trigger] groups[g]).image@ == image && text::texts(
            groups[g].hosts@,
        ).contains(host)
}

/// Whether every image is listed once, with at least one host, and every host once for it.
pub open spec fn is_tidy(groups: Seq<ImageHosts>) -> bool {
    &&& forall|g: int, h: int|
        0 <= g < h < groups.len() ==> (#[trigger] groups[g]).image@ != (
        #[trigger] groups[h]).image@
    &&& forall|g: int|
        0 <= g < groups.len() ==> (#[trigger] groups[g]).hosts@.len() > 0 && text::texts(
            groups[g].hosts@,
        ).no_duplicates()
}

/// Lists an image for a host.
fn add_target(groups: &mut Vec<ImageHosts>, image: &str, host: &str)
    requires
        is_tidy(old(groups)@),
    ensures
        is_tidy(final(groups)@),
        forall|i: Seq<char>, h: Seq<char>| #[trigger]
            lists(final(groups)@, i, h) <==> lists(old(groups)@, i, h) || (i == image@ && h
                == host@),
{
    let ghost before = groups@;
    let mut g: usize = 0;
    while g < groups.len()
        invariant
            g <= groups@.len(),
            groups@ == before,
            before == old(groups)@,
            is_tidy(before),
            forall|k: int| 0 <= k < g ==> (#[trigger] before[k]).image@ != image@,
        decreases groups@.len() - g,
    {
        if text::same_text(groups[g].image.as_str(), image) {
            let ghost listed = text::texts(before[g as int].hosts@);
            if !text::contains_text(&groups[g].hosts, host) {
                text::push_text(&mut groups[g].hosts, host);
                proof {
                    let after = groups@;
                    let now = text::texts(after[g as int].hosts@);
                    assert(now == listed.push(host@));
                    assert(now.no_duplicates()) by {
                        assert(!listed.contains(host@));
                        assert forall|a: int, b: int|
                            0 <= a < now.len() && 0 <= b < now.len() && a != b implies now[a]
                            != now[b] by {
                            if a == listed.len() {
                                assert(listed.contains(listed[b]));
                            } else if b == listed.len() {
                                assert(listed.contains(listed[a]));
                            }
                        }
                    }
                    assert forall|k: int| 0 <= k < after.len() implies (#[trigger] after[k]).image@
                        == before[k].image@ && (k != g ==> after[k] == before[k]) by {}
                    assert(is_tidy(after)) by {
                        assert forall|a: int, b: int| 0 <= a < b < after.len() implies (
                        #[trigger] after[a]).image@ != (#[trigger] after[b]).image@ by {
                            assert(before[a].image@ != before[b].image@);
                        }
                        assert forall|k: int| 0 <= k < after.len() implies (
                        #[trigger] after[k]).hosts@.len() > 0 && text::texts(
                            after[k].hosts@,
                        ).no_duplicates() by {
                            assert(before[k].hosts@.len() > 0);
                            if k == g {
                                assert(now.len() > 0);
                            }
                        }
                    }
                    assert forall|i: Seq<char>, h: Seq<char>| #[trigger]
                        lists(after, i, h) <==> lists(before, i, h) || (i == image@ && h
                            == host@) by {
                        if lists(after, i, h) {
                            let k = choose|k: int|
                                0 <= k < after.len() && (#[trigger] after[k]).image@ == i
                                    && text::texts(after[k].hosts@).contains(h);
                            if k == g {
                                let m = choose|m: int| 0 <= m < now.len() && now[m] == h;
                                if m < listed.len() {
                                    assert(listed[m] == h);
                                    assert(before[k].image@ == i);
                                }
                            } else {
                                assert(before[k].image@ == i);
                            }
                        }
                        if lists(before, i, h) {
                            let k = choose|k: int|
                                0 <= k < before.len() && (#[trigger] before[k]).image@ == i
                                    && text::texts(before[k].hosts@).contains(h);
                            assert(after[k].image@ == i);
                            if k == g {
                                let m = choose|m: int| 0 <= m < listed.len() && listed[m] == h;
                                assert(now[m] == h);
                            }
                        }
                        if i == image@ && h == host@ {
                            assert(after[g as int].image@ == i);
                            assert(now[listed.len() as int] == h);
                        }
                    }
                }
            } else {
                assert(before[g as int].image@ == image@);
                assert(lists(before, image@, host@));
            }
            return;
        }
        g = g + 1;
    }
    let mut hosts = text::no_texts();
    text::push_text(&mut hosts, host);
    groups.push(ImageHosts { image: image.to_owned(), hosts });
    proof {
        let after = groups@;
        let last = after[after.len() - 1];
        assert(text::texts(last.hosts@) =~= seq![host@]);
        assert forall|k: int| 0 <= k < before.len() implies #[trigger] after[k] == before[k] by {}
        assert forall|i: Seq<char>, h: Seq<char>| #[trigger]
            lists(after, i, h) <==> lists(before, i, h) || (i == image@ && h == host@) by {
            if lists(after, i, h) {
                let k = choose|k: int|
                    0 <= k < after.len() && (#[trigger] after[k]).image@ == i && text::texts(
                        after[k].hosts@,
                    ).contains(h);
                if k < before.len() {
                    assert(before[k].image@ == i);
                }
            }
            if lists(before, i, h) {
                let k = choose|k: int|
                    0 <= k < before.len() && (#[trigger] before[k]).image@ == i && text::texts(
                        before[k].hosts@,
                    ).contains(h);
                assert(after[k].image@ == i);
            }
            if i == image@ && h == host@ {
                assert(last.image@ == i);
                assert(text::texts(last.hosts@)[0] == h);
            }
        }
    }
}

/// Whether one of the first `n` assignments puts an image on a host.
pub open spec fn assigns(
    assignments: Seq<AssignmentView>,
    image: Seq<char>,
    host: Seq<char>,
    n: int,
) -> bool {
    exists|a: int|
        0 <= a < n && (#[trigger] assignments[a]).docker_image == image
            && assignments[a].host.address == host
}

/// The images in use, each with the addresses of the hosts that run it.
pub fn image_hosts(assignments: &Vec<PeerAssignment>) -> (r: Vec<ImageHosts>)
    ensures
        is_tidy(r@),
        forall|i: Seq<char>, h: Seq<char>| #[trigger]
            lists(r@, i, h) <==> assigns(
                config::assignments_view(assignments@),
                i,
                h,
                assignments@.len() as int,
            ),
{
    let mut groups: Vec<ImageHosts> = Vec::new();
    let mut a: usize = 0;
    let ghost views = config::assignments_view(assignments@);
    while a < assignments.len()
        invariant
            a <= assignments@.len(),
            views == config::assignments_view(assignments@),
            is_tidy(groups@),
            forall|i: Seq<char>, h: Seq<char>| #[trigger]
                lists(groups@, i, h) <==> assigns(views, i, h, a as int),
        decreases assignments@.len() - a,
    {
        add_target(
            &mut groups,
            assignments[a].docker_image.as_str(),
            assignments[a].host.address.as_str(),
        );
        proof {
            assert forall|i: Seq<char>, h: Seq<char>| #[trigger]
                lists(groups@, i, h) <==> assigns(views, i, h, a + 1) by {
                assert(views[a as int].docker_image == assignments@[a as int].docker_image@);
                if assigns(views, i, h, a as int) {
                    let k = choose|k: int|
                        0 <= k < a && (#[trigger] views[k]).docker_image == i
                            && views[k].host.address == h;
                    assert(views[k].docker_image == i);
                }
            }
        }
        a = a + 1;
    }
    groups
}

// ---------------------------------------------------------------------------------------------
// Errors of tasks
// ---------------------------------------------------------------------------------------------
/// How a task went wrong.
pub enum TaskError {
    /// It failed, with this message.
    Failed(String),
    /// It panicked.
    Panicked(String),
    /// It could not be waited for.
    Lost(String),
}

impl TaskError {
    /// What is told of the error.
    pub open spec fn told(self) -> Seq<char> {
        match self {
            TaskError::Failed(e) => e@,
            TaskError::Panicked(e) => "task panic: "@ + e@,
            TaskError::Lost(e) => "join error: "@ + e@,
        }
    }

    /// What is told of the error.
    fn tell(&self) -> (r: String)
        ensures
            r@ == self.told(),
    {
        match self {
            TaskError::Failed(e) => e.clone(),
            TaskError::Panicked(e) => {
                let mut out = "task panic: ".to_owned();
                out.push_str(e.as_str());
                out
            },
            TaskError::Lost(e) => {
                let mut out = "join error: ".to_owned();
                out.push_str(e.as_str());
                out
            },
        }
    }
}

/// What is told of all errors.
pub open spec fn all_told(errors: Seq<TaskError>) -> Seq<Seq<char>> {
    Seq::new(errors.len(), |i: int| errors[i].told())
}

/// A heading and below it the errors, one on each line.
pub open spec fn error_report(heading: Seq<char>, errors: Seq<Seq<char>>) -> Seq<char> {
    heading + ":\n  "@ + text::joined(errors, "\n  "@)
}

/// A heading and below it the errors, one on each line.
fn report(heading: &str, errors: &Vec<String>) -> (r: String)
    ensures
        r@ == error_report(heading@, text::texts(errors@)),
{
    let mut out = heading.to_owned();
    out.push_str(":\n  ");
    out.push_str(text::join(errors, "\n  ").as_str());
    out
}

/// Success where there are no errors, and otherwise a report of all of them.
fn check_errors(heading: &str, errors: &Vec<TaskError>) -> (r: Result<(), String>)
    ensures
        match r {
            Ok(()) => errors@.len() == 0,
            Err(message) => errors@.len() > 0 && message@ == error_report(
                heading@,
                all_told(errors@),
            ),
        },
{
    if errors.len() == 0 {
        return Ok(());
    }
    let mut told: Vec<String> = Vec::new();
    let mut i: usize = 0;
    while i < errors.len()
        invariant
            i <= errors@.len(),
            text::texts(told@) == all_told(errors@).take(i as int),
        decreases errors@.len() - i,
    {
        let ghost before = told@;
        let line = errors[i].tell();
        let ghost entry = line@;
        told.push(line);
        assert(text::texts(told@) =~= text::texts(before).push(entry));
        i = i + 1;
    }
    assert(all_told(errors@).take(errors@.len() as int) =~= all_told(errors@));
    Err(report(heading, &told))
}

/// Judges how making the directories for the configurations of the peers went.
pub fn ensure_peer_config_dirs(errors: &Vec<TaskError>) -> (r: Result<(), String>)
    ensures
        match r {
            Ok(()) => errors@.len() == 0,
            Err(message) => errors@.len() > 0 && message@ == error_report(
                "failed to ensure peer-config dirs"@,
                all_told(errors@),
            ),
        },
{
    check_errors("failed to ensure peer-config dirs", errors)
}

/// Judges how bringing the images to the hosts went.
pub fn check_distribution(errors: &Vec<TaskError>) -> (r: Result<(), String>)
    ensures
        match r {
            Ok(()) => errors@.len() == 0,
            Err(message) => errors@.len() > 0 && message@ == error_report(
                "image distribution errors"@,
                all_told(errors@),
            ),
        },
{
    check_errors("image distribution errors", errors)
}

// ---------------------------------------------------------------------------------------------
// Who lacks what
// ---------------------------------------------------------------------------------------------
/// What the check of one image on one host found.
pub enum CheckOutcome {
    /// The host needs the image.
    Missing { image: String, host: String },
    /// The host has the image.
    Present,
    /// The check itself went wrong.
    Error(TaskError),
}

/// An image, the hosts that need it, and where its archive is kept.
pub struct ImagePlan {
    pub image: String,
    pub missing_hosts: Vec<String>,
    pub archive_path: String,
}

/// What is told of the errors among the first `n` outcomes.
pub open spec fn errors_among(outcomes: Seq<CheckOutcome>, n: int) -> Seq<Seq<char>>
    decreases n,
{
    if n <= 0 {
        Seq::empty()
    } else {
        match outcomes[n - 1] {
            CheckOutcome::Error(e) => errors_among(outcomes, n - 1).push(e.told()),
            _ => errors_among(outcomes, n - 1),
        }
    }
}

/// The hosts among the first `n` outcomes that need an image, in order.
pub open spec fn missing_among(outcomes: Seq<CheckOutcome>, image: Seq<char>, n: int) -> Seq<
    Seq<char>,
>
    decreases n,
{
    if n <= 0 {
        Seq::empty()
    } else {
        match outcomes[n - 1] {
            CheckOutcome::Missing { image: i, host } if i@ == image => missing_among(
                outcomes,
                image,
                n - 1,
            ).push(host@),
            _ => missing_among(outcomes, image, n - 1),
        }
    }
}

/// Whether there is a plan for an image.
pub open spec fn plans_for(plans: Seq<ImagePlan>, image: Seq<char>) -> bool {
    exists|p: int| 0 <= p < plans.len() && (#[trigger] plans[p]).image@ == image
}

/// Whether these are the plans for the first `n` outcomes: one for each image that some host needs,
/// with exactly these hosts.
pub open spec fn are_plans(plans: Seq<ImagePlan>, outcomes: Seq<CheckOutcome>, n: int) -> bool {
    &&& forall|p: int, q: int|
        0 <= p < q < plans.len() ==> (#[trigger] plans[p]).image@ != (#[trigger] plans[q]).image@
    &&& forall|p: int|
        0 <= p < plans.len() ==> {
            &&& text::texts((#[trigger] plans[p]).missing_hosts@) == missing_among(
                outcomes,
                plans[p].image@,
                n,
            )
            &&& plans[p].archive_path@ == docker_mgr::archive_path(plans[p].image@)
        }
    &&& forall|image: Seq<char>| #[trigger]
        plans_for(plans, image) <==> missing_among(outcomes, image, n).len() > 0
}

/// Adds a host to the plan for an image, or makes that plan.
fn add_missing(
    plans: &mut Vec<ImagePlan>,
    image: &str,
    host: &str,
    Ghost(outcomes): Ghost<Seq<CheckOutcome>>,
    Ghost(n): Ghost<int>,
)
    requires
        are_plans(old(plans)@, outcomes, n),
        n >= 0,
        outcomes[n] matches CheckOutcome::Missing { image: i, host: h } && i@ == image@ && h@
            == host@,
    ensures
        are_plans(final(plans)@, outcomes, n + 1),
{
    let ghost before = plans@;
    let mut p: usize = 0;
    while p < plans.len()
        invariant
            p <= plans@.len(),
            plans@ == before,
            n >= 0,
            are_plans(before, outcomes, n),
            outcomes[n] matches CheckOutcome::Missing { image: i, host: h } && i@ == image@ && h@
                == host@,
            forall|k: int| 0 <= k < p ==> (#[trigger] before[k]).image@ != image@,
        decreases plans@.len() - p,
    {
        if text::same_text(plans[p].image.as_str(), image) {
            text::push_text(&mut plans[p].missing_hosts, host);
            proof {
                let after = plans@;
                assert forall|k: int| 0 <= k < after.len() implies (#[trigger] after[k]).image@
                    == before[k].image@ && after[k].archive_path@ == before[k].archive_path@ && (k
                    != p ==> after[k] == before[k]) by {}
                assert forall|a: int, b: int| 0 <= a < b < after.len() implies (
                #[trigger] after[a]).image@ != (#[trigger] after[b]).image@ by {
                    assert(before[a].image@ != before[b].image@);
                }
                assert forall|k: int| 0 <= k < after.len() implies {
                    &&& text::texts((#[trigger] after[k]).missing_hosts@) == missing_among(
                        outcomes,
                        after[k].image@,
                        n + 1,
                    )
                    &&& after[k].archive_path@ == docker_mgr::archive_path(after[k].image@)
                } by {
                    assert(text::texts(before[k].missing_hosts@) == missing_among(
                        outcomes,
                        before[k].image@,
                        n,
                    ));
                    if k != p {
                        assert(before[k].image@ != image@) by {
                            if k < p {
                                assert(before[k].image@ != before[p as int].image@);
                            } else {
                                assert(before[p as int].image@ != before[k].image@);
                            }
                        }
                    }
                }
                assert forall|i: Seq<char>| #[trigger]
                    plans_for(after, i) <==> missing_among(outcomes, i, n + 1).len() > 0 by {
                    assert(plans_for(before, i) <==> missing_among(outcomes, i, n).len() > 0);
                    if plans_for(after, i) {
                        let k = choose|k: int|
                            0 <= k < after.len() && (#[trigger] after[k]).image@ == i;
                        assert(before[k].image@ == i);
                        assert(plans_for(before, i));
                    }
                    if plans_for(before, i) {
                        let k = choose|k: int|
                            0 <= k < before.len() && (#[trigger] before[k]).image@ == i;
                        assert(after[k].image@ == i);
                    }
                    if i == image@ {
                        assert(after[p as int].image@ == i);
                    }
                }
            }
            return;
        }
        p = p + 1;
    }
    let mut missing_hosts = text::no_texts();
    text::push_text(&mut missing_hosts, host);
    let plan = ImagePlan {
        image: image.to_owned(),
        missing_hosts,
        archive_path: docker_mgr::temp_archive_path(image),
    };
    plans.push(plan);
    proof {
        let after = plans@;
        let last = after[after.len() - 1];
        assert(!plans_for(before, image@));
        assert(missing_among(outcomes, image@, n).len() == 0);
        assert(missing_among(outcomes, image@, n) =~= Seq::empty());
        assert(text::texts(last.missing_hosts@) =~= missing_among(outcomes, image@, n + 1));
        assert forall|k: int| 0 <= k < before.len() implies #[trigger] after[k] == before[k] by {}
        assert forall|k: int| 0 <= k < after.len() implies {
            &&& text::texts((#[trigger] after[k]).missing_hosts@) == missing_among(
                outcomes,
                after[k].image@,
                n + 1,
            )
            &&& after[k].archive_path@ == docker_mgr::archive_path(after[k].image@)
        } by {
            if k < before.len() {
                assert(text::texts(before[k].missing_hosts@) == missing_among(
                    outcomes,
                    before[k].image@,
                    n,
                ));
                assert(before[k].image@ != image@);
            }
        }
        assert forall|i: Seq<char>| #[trigger]
            plans_for(after, i) <==> missing_among(outcomes, i, n + 1).len() > 0 by {
            assert(plans_for(before, i) <==> missing_among(outcomes, i, n).len() > 0);
            if plans_for(after, i) {
                let k = choose|k: int| 0 <= k < after.len() && (#[trigger] after[k]).image@ == i;
                if k < before.len() {
                    assert(before[k].image@ == i);
                    assert(plans_for(before, i));
                }
            }
            if plans_for(before, i) {
                let k = choose|k: int| 0 <= k < before.len() && (#[trigger] before[k]).image@ == i;
                assert(after[k].image@ == i);
            }
            if i == image@ {
                assert(last.image@ == i);
            }
        }
    }
}

/// An outcome that names no missing image leaves the plans as they are.
proof fn plans_stay(plans: Seq<ImagePlan>, outcomes: Seq<CheckOutcome>, n: int)
    requires
        n >= 0,
        are_plans(plans, outcomes, n),
        !(outcomes[n] is Missing),
    ensures
        are_plans(plans, outcomes, n + 1),
{
    assert forall|image: Seq<char>| #[trigger] missing_among(outcomes, image, n + 1)
        == missing_among(outcomes, image, n) by {}
    assert forall|p: int| 0 <= p < plans.len() implies {
        &&& text::texts((#[trigger] plans[p]).missing_hosts@) == missing_among(
            outcomes,
            plans[p].image@,
            n + 1,
        )
        &&& plans[p].archive_path@ == docker_mgr::archive_path(plans[p].image@)
    } by {
        assert(missing_among(outcomes, plans[p].image@, n + 1) == missing_among(
            outcomes,
            plans[p].image@,
            n,
        ));
    }
}

/// Plans which image goes to which hosts, from what the checks found; where a check went wrong there
/// is no plan, but a report of all errors.
pub fn plan_distribution(outcomes: &Vec<CheckOutcome>) -> (r: Result<Vec<ImagePlan>, String>)
    ensures
        match r {
            Ok(plans) => errors_among(outcomes@, outcomes@.len() as int).len() == 0 && are_plans(
                plans@,
                outcomes@,
                outcomes@.len() as int,
            ),
            Err(message) => errors_among(outcomes@, outcomes@.len() as int).len() > 0 && message@
                == error_report(
                "failed during remote image checks"@,
                errors_among(outcomes@, outcomes@.len() as int),
            ),
        },
{
    let mut plans: Vec<ImagePlan> = Vec::new();
    let mut errors = text::no_texts();
    let mut i: usize = 0;
    while i < outcomes.len()
        invariant
            i <= outcomes@.len(),
            text::texts(errors@) == errors_among(outcomes@, i as int),
            are_plans(plans@, outcomes@, i as int),
        decreases outcomes@.len() - i,
    {
        match &outcomes[i] {
            CheckOutcome::Missing { image, host } => {
                add_missing(
                    &mut plans,
                    image.as_str(),
                    host.as_str(),
                    Ghost(outcomes@),
                    Ghost(i as int),
                );
            },
            CheckOutcome::Present => {
                proof {
                    plans_stay(plans@, outcomes@, i as int);
                }
            },
            CheckOutcome::Error(e) => {
                text::push_text(&mut errors, e.tell().as_str());
                proof {
                    plans_stay(plans@, outcomes@, i as int);
                }
            },
        }
        i = i + 1;
    }
    if errors.len() > 0 {
        assert(text::texts(errors@).len() > 0);
        return Err(report("failed during remote image checks", &errors));
    }
    assert(text::texts(errors@).len() == 0);
    Ok(plans)
}

/// How many hosts the first `n` plans name in all.
pub open spec fn targets(plans: Seq<ImagePlan>, n: int) -> int
    decreases n,
{
    if n <= 0 {
        0
    } else {
        targets(plans, n - 1) + plans[n - 1].missing_hosts@.len()
    }
}

/// What is logged before the images are brought to the hosts.
pub fn distribution_note(plans: &Vec<ImagePlan>) -> (r: String)
    ensures
        r@ == "distributing "@ + text::decimal(plans@.len()) + " image(s) to "@ + text::decimal(
            targets(plans@, plans@.len() as int) as nat,
        ) + " host target(s)..."@,
{
    let mut total: u128 = 0;
    let mut i: usize = 0;
    while i < plans.len()
        invariant
            i <= plans@.len(),
            total == targets(plans@, i as int),
            total <= i * 0xffff_ffff_ffff_ffff,
        decreases plans@.len() - i,
    {
        let count = plans[i].missing_hosts.len();
        assert(i * 0xffff_ffff_ffff_ffff + 0xffff_ffff_ffff_ffff <= 0xffff_ffff_ffff_ffff
            * 0xffff_ffff_ffff_ffff) by (nonlinear_arith)
            requires
                i < 0xffff_ffff_ffff_ffff,
        ;
        total = total + count as u128;
        assert((i + 1) * 0xffff_ffff_ffff_ffff == i * 0xffff_ffff_ffff_ffff + 0xffff_ffff_ffff_ffff)
            by (nonlinear_arith);
        i = i + 1;
    }
    let mut out = "distributing ".to_owned();
    out.push_str(text::decimal_of(plans.len() as u128).as_str());
    out.push_str(" image(s) to ");
    out.push_str(text::decimal_of(total).as_str());
    out.push_str(" host target(s)...");
    out
}

// ---------------------------------------------------------------------------------------------
// Bringing images to hosts
// ---------------------------------------------------------------------------------------------
/// An image to bring to a host: where its archive is here, and where it goes there.
pub struct Delivery {
    pub image: String,
    pub host: String,
    pub archive: String,
    pub remote_archive: String,
}

/// What a delivery says.
pub struct DeliveryView {
    pub image: Seq<char>,
    pub host: Seq<char>,
    pub archive: Seq<char>,
    pub remote_archive: Seq<char>,
}

impl View for Delivery {
    type V = DeliveryView;

    open spec fn view(&self) -> DeliveryView {
        DeliveryView {
            image: self.image@,
            host: self.host@,
            archive: self.archive@,
            remote_archive: self.remote_archive@,
        }
    }
}

/// What deliveries say.
pub open spec fn deliveries_view(deliveries: Seq<Delivery>) -> Seq<DeliveryView> {
    Seq::new(deliveries.len(), |i: int| deliveries[i]@)
}

/// The deliveries of one plan: one to each host that needs the image.
pub open spec fn plan_deliveries(plan: ImagePlan) -> Seq<DeliveryView> {
    Seq::new(
        plan.missing_hosts@.len(),
        |k: int|
            DeliveryView {
                image: plan.image@,
                host: plan.missing_hosts@[k]@,
                archive: plan.archive_path@,
                remote_archive: docker_mgr::archive_path(plan.image@),
            },
    )
}

/// The deliveries of the first `n` plans, one plan after the other.
pub open spec fn all_deliveries(plans: Seq<ImagePlan>, n: int) -> Seq<DeliveryView>
    decreases n,
{
    if n <= 0 {
        Seq::empty()
    } else {
        all_deliveries(plans, n - 1) + plan_deliveries(plans[n - 1])
    }
}

/// The deliveries that the plans call for.
pub fn distribute_images(plans: &Vec<ImagePlan>) -> (r: Vec<Delivery>)
    ensures
        deliveries_view(r@) == all_deliveries(plans@, plans@.len() as int),
{
    let mut out: Vec<Delivery> = Vec::new();
    let mut p: usize = 0;
    assert(deliveries_view(out@) =~= Seq::empty());
    while p < plans.len()
        invariant
            p <= plans@.len(),
            deliveries_view(out@) == all_deliveries(plans@, p as int),
        decreases plans@.len() - p,
    {
        let plan = &plans[p];
        let mut k: usize = 0;
        let ghost done = deliveries_view(out@);
        let ghost wanted = plan_deliveries(*plan);
        assert(done + wanted.take(0) =~= done);
        while k < plan.missing_hosts.len()
            invariant
                k <= plan.missing_hosts@.len(),
                wanted == plan_deliveries(*plan),
                deliveries_view(out@) == done + wanted.take(k as int),
            decreases plan.missing_hosts@.len() - k,
        {
            let ghost before = out@;
            let delivery = Delivery {
                image: plan.image.clone(),
                host: plan.missing_hosts[k].clone(),
                archive: plan.archive_path.clone(),
                remote_archive: docker_mgr::temp_archive_path(plan.image.as_str()),
            };
            let ghost entry = delivery@;
            out.push(delivery);
            assert(deliveries_view(out@) =~= deliveries_view(before).push(entry));
            assert(wanted.take(k + 1) =~= wanted.take(k as int).push(wanted[k as int]));
            assert(deliveries_view(out@) =~= done + wanted.take(k + 1));
            k = k + 1;
        }
        assert(wanted.take(wanted.len() as int) =~= wanted);
        p = p + 1;
    }
    out
}

/// Whether one of the deliveries brings an image to a host.
pub open spec fn delivers(deliveries: Seq<DeliveryView>, image: Seq<char>, host: Seq<char>) -> bool {
    exists|d: int|
        0 <= d < deliveries.len() && (#[trigger] deliveries[d]).image == image && deliveries[d].host
            == host
}

/// An image is brought to exactly the hosts that were found to need it.
pub proof fn needed_images_are_delivered(
    plans: Seq<ImagePlan>,
    outcomes: Seq<CheckOutcome>,
    image: Seq<char>,
    host: Seq<char>,
)
    requires
        are_plans(plans, outcomes, outcomes.len() as int),
    ensures
        delivers(all_deliveries(plans, plans.len() as int), image, host) <==> missing_among(
            outcomes,
            image,
            outcomes.len() as int,
        ).contains(host),
{
    let all = all_deliveries(plans, plans.len() as int);
    let lacking = missing_among(outcomes, image, outcomes.len() as int);
    if delivers(all, image, host) {
        let d = choose|d: int|
            0 <= d < all.len() && (#[trigger] all[d]).image == image && all[d].host == host;
        let (p, k) = delivery_is_planned(plans, plans.len() as int, d);
        assert(text::texts(plans[p].missing_hosts@)[k] == host);
    }
    if lacking.contains(host) {
        assert(plans_for(plans, image));
        let p = choose|p: int| 0 <= p < plans.len() && (#[trigger] plans[p]).image@ == image;
        let k = choose|k: int| 0 <= k < lacking.len() && lacking[k] == host;
        let d = plan_is_delivered(plans, plans.len() as int, p, k);
        assert(all[d].image == image);
    }
}

/// A delivery belongs to a host of a plan.
proof fn delivery_is_planned(plans: Seq<ImagePlan>, n: int, d: int) -> (at: (int, int))
    requires
        0 <= n <= plans.len(),
        0 <= d < all_deliveries(plans, n).len(),
    ensures
        0 <= at.0 < n,
        0 <= at.1 < plans[at.0].missing_hosts@.len(),
        all_deliveries(plans, n)[d] == plan_deliveries(plans[at.0])[at.1],
    decreases n,
{
    let front = all_deliveries(plans, n - 1);
    if d < front.len() {
        delivery_is_planned(plans, n - 1, d)
    } else {
        (n - 1, d - front.len())
    }
}

/// Every host of a plan has a delivery.
proof fn plan_is_delivered(plans: Seq<ImagePlan>, n: int, p: int, k: int) -> (d: int)
    requires
        0 <= p < n <= plans.len(),
        0 <= k < plans[p].missing_hosts@.len(),
    ensures
        0 <= d < all_deliveries(plans, n).len(),
        all_deliveries(plans, n)[d] == plan_deliveries(plans[p])[k],
    decreases n,
{
    if p < n - 1 {
        plan_is_delivered(plans, n - 1, p, k)
    } else {
        all_deliveries(plans, n - 1).len() + k
    }
}

/// How far a delivery is: the image is exported, then its archive is transferred and imported.
#[derive(Debug, Clone, Copy, PartialEq, Eq, Structural)]
pub enum DeliveryPhase {
    Exporting,
    Transferring,
    Importing,
}

/// What to do for a delivery.
pub enum DeliveryAction {
    /// Do this, or wait for it.
    Run(DeliveryPhase),
    /// The image is there: log the note.
    Done(String),
    /// The image could not be brought.
    Failed(String),
}

/// What an action for a delivery says.
pub enum DeliveryStep {
    Run(DeliveryPhase),
    Done(Seq<char>),
    Failed(Seq<char>),
}

impl View for DeliveryAction {
    type V = DeliveryStep;

    open spec fn view(&self) -> DeliveryStep {
        match self {
            DeliveryAction::Run(phase) => DeliveryStep::Run(*phase),
            DeliveryAction::Done(note) => DeliveryStep::Done(note@),
            DeliveryAction::Failed(message) => DeliveryStep::Failed(message@),
        }
    }
}

/// What to do for a delivery after a phase of it, which went well or failed with a message.
pub open spec fn delivery_step(
    delivery: DeliveryView,
    phase: DeliveryPhase,
    failure: Option<Seq<char>>,
) -> DeliveryStep {
    match (phase, failure) {
        (DeliveryPhase::Exporting, Some(_)) => DeliveryStep::Failed(
            docker_mgr::export_cancelled_message(delivery.image, delivery.host),
        ),
        (_, Some(message)) => DeliveryStep::Failed(message),
        (DeliveryPhase::Exporting, None) => DeliveryStep::Run(DeliveryPhase::Transferring),
        (DeliveryPhase::Transferring, None) => DeliveryStep::Run(DeliveryPhase::Importing),
        (DeliveryPhase::Importing, None) => DeliveryStep::Done(
            "image '"@ + delivery.image + "' distributed to "@ + delivery.host,
        ),
    }
}

/// What to do for a delivery first: it waits for the image to be exported.
pub fn deliver_image() -> (r: DeliveryAction)
    ensures
        r@ == DeliveryStep::Run(DeliveryPhase::Exporting),
{
    DeliveryAction::Run(DeliveryPhase::Exporting)
}

/// What to do for a delivery after a phase of it, which went well or failed with a message.
pub fn deliver_next(delivery: &Delivery, phase: DeliveryPhase, failure: Option<String>) -> (r:
    DeliveryAction)
    ensures
        r@ == delivery_step(delivery@, phase, config::option_text(failure)),
{
    match failure {
        Some(message) => match phase {
            DeliveryPhase::Exporting => DeliveryAction::Failed(
                docker_mgr::export_cancelled(delivery.image.as_str(), delivery.host.as_str()),
            ),
            _ => DeliveryAction::Failed(message),
        },
        None => match phase {
            DeliveryPhase::Exporting => DeliveryAction::Run(DeliveryPhase::Transferring),
            DeliveryPhase::Transferring => DeliveryAction::Run(DeliveryPhase::Importing),
            DeliveryPhase::Importing => {
                let mut note = "image '".to_owned();
                note.push_str(delivery.image.as_str());
                note.push_str("' distributed to ");
                note.push_str(delivery.host.as_str());
                DeliveryAction::Done(note)
            },
        },
    }
}

/// The place of a phase in the order of phases.
pub open spec fn phase_rank(phase: DeliveryPhase) -> int {
    match phase {
        DeliveryPhase::Exporting => 0,
        DeliveryPhase::Transferring => 1,
        DeliveryPhase::Importing => 2,
    }
}

/// A delivery fails if and only if a phase of it does, is done if and only if the last phase went
/// well, and otherwise goes on with the phase that comes next.
pub proof fn deliveries_go_in_order(
    delivery: DeliveryView,
    phase: DeliveryPhase,
    failure: Option<Seq<char>>,
)
    ensures
        ({
            let step = delivery_step(delivery, phase, failure);
            &&& step is Failed <==> failure is Some
            &&& step is Done <==> failure is None && phase == DeliveryPhase::Importing
            &&& step matches DeliveryStep::Run(next) ==> phase_rank(next) == phase_rank(phase) + 1
        }),
{
}

/// Whether an outcome is that a host needs an image.
pub open spec fn finds_missing(outcome: CheckOutcome, image: Seq<char>, host: Seq<char>) -> bool {
    outcome matches CheckOutcome::Missing { image: i, host: h } && i@ == image && h@ == host
}

/// The hosts that need an image are those that an outcome says so of, and no others.
pub proof fn missing_hosts_are_those_found(
    outcomes: Seq<CheckOutcome>,
    image: Seq<char>,
    host: Seq<char>,
    n: int,
)
    requires
        0 <= n <= outcomes.len(),
    ensures
        missing_among(outcomes, image, n).contains(host) <==> exists|k: int|
            0 <= k < n && finds_missing(#[trigger] outcomes[k], image, host),
        missing_among(outcomes, image, n).len() <= n,
    decreases n,
{
    if n > 0 {
        missing_hosts_are_those_found(outcomes, image, host, n - 1);
        let front = missing_among(outcomes, image, n - 1);
        let all = missing_among(outcomes, image, n);
        let last = outcomes[n - 1];
        if all.contains(host) && !front.contains(host) {
            let at = choose|at: int| 0 <= at < all.len() && all[at] == host;
            assert(at == front.len()) by {
                if at < front.len() {
                    assert(front[at] == host);
                }
            }
            assert(finds_missing(outcomes[n - 1], image, host));
        }
        if front.contains(host) {
            let at = choose|at: int| 0 <= at < front.len() && front[at] == host;
            assert(all[at] == host);
        }
        if finds_missing(last, image, host) {
            assert(all[front.len() as int] == host);
        }
    }
}

/// An image is brought to a host if and only if a check found that the host needs it.
pub proof fn images_go_where_they_are_missing(
    plans: Seq<ImagePlan>,
    outcomes: Seq<CheckOutcome>,
    image: Seq<char>,
    host: Seq<char>,
)
    requires
        are_plans(plans, outcomes, outcomes.len() as int),
    ensures
        delivers(all_deliveries(plans, plans.len() as int), image, host) <==> exists|k: int|
            0 <= k < outcomes.len() && finds_missing(#[trigger] outcomes[k], image, host),
{
    needed_images_are_delivered(plans, outcomes, image, host);
    missing_hosts_are_those_found(outcomes, image, host, outcomes.len() as int);
}

/// There are as many deliveries as the note before them says, every one of them takes its image's own
/// archive, and the archive goes to the same place on the host.
pub proof fn deliveries_are_counted_and_take_their_archives(
    plans: Seq<ImagePlan>,
    outcomes: Seq<CheckOutcome>,
    n: int,
    d: int,
)
    requires
        are_plans(plans, outcomes, outcomes.len() as int),
        0 <= n <= plans.len(),
    ensures
        all_deliveries(plans, n).len() == targets(plans, n),
        0 <= d < all_deliveries(plans, n).len() ==> {
            let delivery = all_deliveries(plans, n)[d];
            &&& delivery.archive == docker_mgr::archive_path(delivery.image)
            &&& delivery.remote_archive == delivery.archive
        },
    decreases n,
{
    if n > 0 {
        deliveries_are_counted_and_take_their_archives(plans, outcomes, n - 1, d);
        assert(plans[n - 1].archive_path@ == docker_mgr::archive_path(plans[n - 1].image@));
    }
}

/// Every error among the outcomes is told, and nothing is told where there is none.
pub proof fn errors_are_told(outcomes: Seq<CheckOutcome>, n: int)
    requires
        0 <= n <= outcomes.len(),
    ensures
        errors_among(outcomes, n).len() == 0 <==> forall|k: int|
            0 <= k < n ==> !(#[trigger] outcomes[k] is Error),
        forall|k: int|
            0 <= k < n ==> (#[trigger] outcomes[k] matches CheckOutcome::Error(e) ==> errors_among(
                outcomes,
                n,
            ).contains(e.told())),
    decreases n,
{
    if n > 0 {
        errors_are_told(outcomes, n - 1);
        let front = errors_among(outcomes, n - 1);
        let all = errors_among(outcomes, n);
        assert forall|k: int| 0 <= k < n implies (#[trigger] outcomes[k] matches CheckOutcome::Error(
            e,
        ) ==> all.contains(e.told())) by {
            if let CheckOutcome::Error(e) = outcomes[k] {
                if k < n - 1 {
                    assert(front.contains(e.told()));
                    let at = choose|at: int| 0 <= at < front.len() && front[at] == e.told();
                    assert(all[at] == e.told());
                } else {
                    assert(all[front.len() as int] == e.told());
                }
            }
        }
        if all.len() == 0 {
            assert forall|k: int| 0 <= k < n implies !(#[trigger] outcomes[k] is Error) by {
                if k == n - 1 {
                    if let CheckOutcome::Error(e) = outcomes[k] {
                        assert(all.len() == front.len() + 1);
                    }
                }
            }
        }
    }
}

/// A report holds its heading and everything that is told, and what is told of an error holds what the
/// error says.
pub proof fn reports_hold_every_error(heading: Seq<char>, errors: Seq<TaskError>, i: int)
    requires
        0 <= i < errors.len(),
    ensures
        text::occurs(heading, error_report(heading, all_told(errors))),
        text::occurs(errors[i].told(), error_report(heading, all_told(errors))),
        match errors[i] {
            TaskError::Failed(e) | TaskError::Panicked(e) | TaskError::Lost(e) => text::occurs(
                e@,
                errors[i].told(),
            ),
        },
{
    let list = all_told(errors);
    let report = error_report(heading, list);
    let body = text::joined(list, "\n  "@);
    let none = Seq::<char>::empty();
    text::parts_occur(none, heading, ":\n  "@ + body);
    assert(none + heading + (":\n  "@ + body) =~= report);
    text::joined_texts_occur(list, "\n  "@, i);
    text::parts_occur(heading + ":\n  "@, body, none);
    assert(heading + ":\n  "@ + body + none =~= report);
    text::occurrences_nest(list[i], body, report);
    match errors[i] {
        TaskError::Failed(e) => {
            text::parts_occur(none, e@, none);
            assert(none + e@ + none =~= e@);
        },
        TaskError::Panicked(e) => {
            text::parts_occur("task panic: "@, e@, none);
            assert("task panic: "@ + e@ + none =~= errors[i].told());
        },
        TaskError::Lost(e) => {
            text::parts_occur("join error: "@, e@, none);
            assert("join error: "@ + e@ + none =~= errors[i].told());
        },
    }
}

/// A failure to transfer or to import an image is told as it is; one to export it names the image and
/// the host, as does the note on a delivery that is done.
pub proof fn deliveries_tell_how_they_ended(
    delivery: DeliveryView,
    phase: DeliveryPhase,
    failure: Option<Seq<char>>,
)
    ensures
        match (delivery_step(delivery, phase, failure), failure) {
            (DeliveryStep::Failed(message), Some(err)) => if phase == DeliveryPhase::Exporting {
                text::occurs(delivery.image, message) && text::occurs(delivery.host, message)
            } else {
                message == err
            },
            (DeliveryStep::Done(note), _) => text::occurs(delivery.image, note) && text::occurs(
                delivery.host,
                note,
            ),
            _ => true,
        },
{
    image_and_host_are_told("export of '"@, delivery, "' was cancelled, skipping transfer to "@);
    image_and_host_are_told("image '"@, delivery, "' distributed to "@);
}

proof fn image_and_host_are_told(before: Seq<char>, delivery: DeliveryView, between: Seq<char>)
    ensures
        text::occurs(delivery.image, before + delivery.image + between + delivery.host),
        text::occurs(delivery.host, before + delivery.image + between + delivery.host),
{
    let whole = before + delivery.image + between + delivery.host;
    text::parts_occur(before, delivery.image, between + delivery.host);
    assert(before + delivery.image + (between + delivery.host) =~= whole);
    text::parts_occur(before + delivery.image + between, delivery.host, Seq::empty());
    assert(before + delivery.image + between + delivery.host + Seq::<char>::empty() =~= whole);
}

} // verus!
