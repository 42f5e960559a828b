//! Applications that customers submit for release, and their review.

use vstd::prelude::*;

use crate::clock;
use crate::copying::Duplicate;
use crate::lookup;
use crate::lookup::Keyed;
use crate::rejection;
use crate::rejection::{refuse, Rejection};
use crate::sorting;
use crate::sorting::Ranked;
use crate::text;

verus! {

/// A submission for release. `snapshot` is a JSON document.
pub struct ApplicationReleaseSubmission {
    pub submission_id: String,
    pub app_id: String,
    pub app_name: String,
    pub version: String,
    pub status: String,
    pub submitted_by: String,
    pub applicant_subject: String,
    pub submitted_at: i64,
    pub snapshot: String,
}

/// What a `ApplicationReleaseSubmission` holds.
#[verifier::ext_equal]
pub struct ApplicationReleaseSubmissionView {
    pub submission_id: Seq<char>,
    pub app_id: Seq<char>,
    pub app_name: Seq<char>,
    pub version: Seq<char>,
    pub status: Seq<char>,
    pub submitted_by: Seq<char>,
    pub applicant_subject: Seq<char>,
    pub submitted_at: i64,
    pub snapshot: Seq<char>,
}

impl View for ApplicationReleaseSubmission {
    type V = ApplicationReleaseSubmissionView;

    open spec fn view(&self) -> ApplicationReleaseSubmissionView {
        ApplicationReleaseSubmissionView {
            submission_id: self.submission_id@,
            app_id: self.app_id@,
            app_name: self.app_name@,
            version: self.version@,
            status: self.status@,
            submitted_by: self.submitted_by@,
            applicant_subject: self.applicant_subject@,
            submitted_at: self.submitted_at,
            snapshot: self.snapshot@,
        }
    }
}

impl Duplicate for ApplicationReleaseSubmission {
    fn duplicate(&self) -> (r: Self) {
        ApplicationReleaseSubmission {
            submission_id: self.submission_id.clone(),
            app_id: self.app_id.clone(),
            app_name: self.app_name.clone(),
            version: self.version.clone(),
            status: self.status.clone(),
            submitted_by: self.submitted_by.clone(),
            applicant_subject: self.applicant_subject.clone(),
            submitted_at: self.submitted_at,
            snapshot: self.snapshot.clone(),
        }
    }
}

/// A submission with its review.
pub struct ReleaseRecord {
    pub submission: ApplicationReleaseSubmission,
    pub reviewed_at: Option<i64>,
    pub review_reason: String,
}

/// What a `ReleaseRecord` holds.
#[verifier::ext_equal]
pub struct ReleaseRecordView {
    pub submission: ApplicationReleaseSubmissionView,
    pub reviewed_at: Option<i64>,
    pub review_reason: Seq<char>,
}

impl View for ReleaseRecord {
    type V = ReleaseRecordView;

    open spec fn view(&self) -> ReleaseRecordView {
        ReleaseRecordView {
            submission: self.submission@,
            reviewed_at: self.reviewed_at,
            review_reason: self.review_reason@,
        }
    }
}

impl Duplicate for ReleaseRecord {
    fn duplicate(&self) -> (r: Self) {
        ReleaseRecord {
            submission: self.submission.duplicate(),
            reviewed_at: self.reviewed_at,
            review_reason: self.review_reason.clone(),
        }
    }
}

/// A review of a submission.
pub struct ReviewApplicationSubmissionRequest {
    pub approved: bool,
    pub reason: String,
}

/// What a `ReviewApplicationSubmissionRequest` holds.
#[verifier::ext_equal]
pub struct ReviewApplicationSubmissionRequestView {
    pub approved: bool,
    pub reason: Seq<char>,
}

impl View for ReviewApplicationSubmissionRequest {
    type V = ReviewApplicationSubmissionRequestView;

    open spec fn view(&self) -> ReviewApplicationSubmissionRequestView {
        ReviewApplicationSubmissionRequestView {
            approved: self.approved,
            reason: self.reason@,
        }
    }
}

impl Keyed for ReleaseRecord {
    open spec fn key_of(record: ReleaseRecordView) -> Seq<char> {
        record.submission.submission_id
    }

    fn has_key(&self, key: &str) -> (r: bool) {
        text::same(self.submission.submission_id.as_str(), key)
    }
}

/// A submission of a customer.
pub open spec fn submitted_by_customer(
    submission: ApplicationReleaseSubmissionView,
    subject: Seq<char>,
) -> ApplicationReleaseSubmissionView {
    ApplicationReleaseSubmissionView { applicant_subject: subject, ..submission }
}

/// The record of a submission that comes for the first time: it waits for
/// review.
pub open spec fn first_release(submission: ApplicationReleaseSubmissionView) -> ReleaseRecordView {
    ReleaseRecordView {
        submission: ApplicationReleaseSubmissionView {
            status: "pending_review"@,
            ..submission
        },
        reviewed_at: None,
        review_reason: Seq::empty(),
    }
}

/// The record of a submission that comes again: it keeps its application, its
/// status and who submitted it.
pub open spec fn renewed(
    record: ReleaseRecordView,
    submission: ApplicationReleaseSubmissionView,
) -> ReleaseRecordView {
    ReleaseRecordView {
        submission: ApplicationReleaseSubmissionView {
            app_name: submission.app_name,
            version: submission.version,
            snapshot: submission.snapshot,
            submitted_at: submission.submitted_at,
            applicant_subject: submission.applicant_subject,
            ..record.submission
        },
        ..record
    }
}

/// The records after a submission.
pub open spec fn with_submission(
    records: Seq<ReleaseRecordView>,
    submission: ApplicationReleaseSubmissionView,
) -> Seq<ReleaseRecordView> {
    if lookup::found::<ReleaseRecord>(records, submission.submission_id) is None {
        records.push(first_release(submission))
    } else {
        records.map_values(
            |r: ReleaseRecordView|
                if r.submission.submission_id == submission.submission_id {
                    renewed(r, submission)
                } else {
                    r
                },
        )
    }
}

/// Whether a submission is complete.
pub open spec fn is_complete(submission: ApplicationReleaseSubmissionView) -> bool {
    !text::blank(submission.submission_id) && !text::blank(submission.app_id)
}

/// Takes a submission of the customer that a license names. A refused one
/// changes nothing.
pub fn receive_application_submission(
    submission: ApplicationReleaseSubmission,
    subject: &str,
    records: &mut Vec<ReleaseRecord>,
) -> (r: Result<ApplicationReleaseSubmission, Rejection>)
    ensures
        if is_complete(submission@) {
            &&& r matches Ok(taken) && taken@ == submitted_by_customer(submission@, subject@)
            &&& text::views(final(records)@) == with_submission(
                text::views(old(records)@),
                submitted_by_customer(submission@, subject@),
            )
        } else {
            &&& r matches Err(e) && e@ == rejection::refusal(
                rejection::BAD_REQUEST,
                "应用上线申请信息不完整"@,
            )
            &&& text::views(final(records)@) == text::views(old(records)@)
        },
{
    let mut taken = submission;
    taken.applicant_subject = subject.to_string();
    if text::is_blank(taken.submission_id.as_str()) || text::is_blank(taken.app_id.as_str()) {
        return Err(refuse(rejection::BAD_REQUEST, "应用上线申请信息不完整"));
    }
    let ghost before = text::views(records@);
    if lookup::find(&*records, taken.submission_id.as_str()).is_none() {
        let mut stored = taken.duplicate();
        stored.status = "pending_review".to_string();
        let record = ReleaseRecord {
            submission: stored,
            reviewed_at: None,
            review_reason: String::new(),
        };
        proof {
            assert(record.review_reason@ =~= Seq::<char>::empty());
            text::lemma_views_push(records@, record);
        }
        records.push(record);
        return Ok(taken);
    }
    let total: usize = records.len();
    let mut i: usize = 0;
    while i < total
        invariant
            i <= total,
            records@.len() == total,
            before.len() == total,
            forall|k: int|
                0 <= k < i ==> (#[trigger] records@[k])@ == (if before[k].submission.submission_id
                    == taken@.submission_id {
                    renewed(before[k], taken@)
                } else {
                    before[k]
                }),
            forall|k: int| i <= k < records@.len() ==> (#[trigger] records@[k])@ == before[k],
        decreases total - i,
    {
        let mut record = records[i].duplicate();
        assert(record@ == before[i as int]);
        if text::same(record.submission.submission_id.as_str(), taken.submission_id.as_str()) {
            let mut submission = record.submission.duplicate();
            submission.app_name = taken.app_name.clone();
            submission.version = taken.version.clone();
            submission.snapshot = taken.snapshot.clone();
            submission.submitted_at = taken.submitted_at;
            submission.applicant_subject = taken.applicant_subject.clone();
            record.submission = submission;
        }
        records.set(i, record);
        i = i + 1;
    }
    assert(text::views(records@) =~= with_submission(before, taken@));
    Ok(taken)
}

/// The record of a submission after a review.
pub open spec fn reviewed(
    record: ReleaseRecordView,
    request: ReviewApplicationSubmissionRequestView,
    now: i64,
) -> ReleaseRecordView {
    ReleaseRecordView {
        submission: ApplicationReleaseSubmissionView {
            status: if request.approved {
                "approved"@
            } else {
                "rejected"@
            },
            ..record.submission
        },
        reviewed_at: Some(now),
        review_reason: text::trimmed(request.reason),
    }
}

/// What a review of a submission comes to.
pub open spec fn review_outcome(
    submission_id: Seq<char>,
    request: ReviewApplicationSubmissionRequestView,
    records: Seq<ReleaseRecordView>,
    now: i64,
) -> Result<ReleaseRecordView, rejection::RejectionView> {
    match lookup::found::<ReleaseRecord>(records, submission_id) {
        None => Err(rejection::refusal(rejection::NOT_FOUND, "应用上线申请不存在"@)),
        Some(record) => Ok(reviewed(record, request, now)),
    }
}

/// Reviews a submission at a second.
pub fn review_at(
    submission_id: &str,
    request: &ReviewApplicationSubmissionRequest,
    records: &Vec<ReleaseRecord>,
    now: i64,
) -> (r: Result<ReleaseRecord, Rejection>)
    ensures
        rejection::outcome(r) == review_outcome(
            submission_id@,
            request@,
            text::views(records@),
            now,
        ),
{
    match lookup::find(records, submission_id) {
        None => Err(refuse(rejection::NOT_FOUND, "应用上线申请不存在")),
        Some(existing) => {
            let mut submission = existing.submission.duplicate();
            submission.status = if request.approved {
                "approved".to_string()
            } else {
                "rejected".to_string()
            };
            Ok(
                ReleaseRecord {
                    submission,
                    reviewed_at: Some(now),
                    review_reason: text::trim_owned(request.reason.as_str()),
                },
            )
        },
    }
}

/// Reviews a submission now.
pub fn review_application_submission(
    submission_id: &str,
    request: &ReviewApplicationSubmissionRequest,
    records: &Vec<ReleaseRecord>,
) -> (r: Result<ReleaseRecord, Rejection>)
    ensures
        exists|now: i64|
            0 <= now <= clock::LAST_SECOND && rejection::outcome(r) == #[trigger] review_outcome(
                submission_id@,
                request@,
                text::views(records@),
                now,
            ),
{
    let now = clock::now();
    let ghost outcome = review_outcome(submission_id@, request@, text::views(records@), now);
    review_at(submission_id, request, records, now)
}

/// Whether a submission was approved.
pub open spec fn is_approved(record: ReleaseRecordView) -> bool {
    record.submission.status == "approved"@
}

impl Ranked for ApplicationReleaseSubmission {
    open spec fn rank_le(
        a: ApplicationReleaseSubmissionView,
        b: ApplicationReleaseSubmissionView,
    ) -> bool {
        a.submitted_at >= b.submitted_at
    }

    proof fn rank_total(a: ApplicationReleaseSubmissionView, b: ApplicationReleaseSubmissionView) {
    }

    proof fn rank_transitive(
        a: ApplicationReleaseSubmissionView,
        b: ApplicationReleaseSubmissionView,
        c: ApplicationReleaseSubmissionView,
    ) {
    }

    fn may_precede(&self, other: &Self) -> (r: bool) {
        self.submitted_at >= other.submitted_at
    }
}

/// The approved submissions, the latest first.
pub open spec fn approved_submissions(records: Seq<ReleaseRecordView>) -> Seq<
    ApplicationReleaseSubmissionView,
> {
    sorting::sorted_by_rank::<ApplicationReleaseSubmission>(
        records.filter(|r: ReleaseRecordView| is_approved(r)).map_values(
            |r: ReleaseRecordView| r.submission,
        ),
    )
}

/// The applications that customers can see: the approved ones, the latest
/// first.
pub fn list_public_applications(records: &Vec<ReleaseRecord>) -> (r: Vec<
    ApplicationReleaseSubmission,
>)
    ensures
        text::views(r@) == approved_submissions(text::views(records@)),
{
    let ghost all = text::views(records@);
    let ghost keep = |r: ReleaseRecordView| is_approved(r);
    let ghost show = |r: ReleaseRecordView| r.submission;
    let mut out: Vec<ApplicationReleaseSubmission> = Vec::new();
    let mut i: usize = 0;
    assert(all.take(0).filter(keep) =~= Seq::<ReleaseRecordView>::empty());
    assert(text::views(out@) =~= all.take(0).filter(keep).map_values(show));
    while i < records.len()
        invariant
            i <= records@.len(),
            all == text::views(records@),
            keep == (|r: ReleaseRecordView| is_approved(r)),
            show == (|r: ReleaseRecordView| r.submission),
            text::views(out@) == all.take(i as int).filter(keep).map_values(show),
        decreases records@.len() - i,
    {
        let record = &records[i];
        let ghost kept = all.take(i as int).filter(keep);
        proof {
            assert(all.take(i + 1) =~= all.take(i as int).push(record@));
            all.take(i as int).lemma_filter_push(record@, keep);
        }
        if text::same(record.submission.status.as_str(), "approved") {
            let shown = record.submission.duplicate();
            proof {
                assert(keep(record@));
                text::lemma_views_push(out@, shown);
                assert(kept.push(record@).map_values(show) =~= kept.map_values(show).push(
                    show(record@),
                ));
            }
            out.push(shown);
        } else {
            assert(!keep(record@));
        }
        i = i + 1;
    }
    assert(all.take(all.len() as int) =~= all);
    sorting::stable_sort(out)
}

/// Customers see nothing but approved applications, the latest first.
pub proof fn law_only_approved_applications_are_public(records: Seq<ReleaseRecordView>, i: int)
    requires
        0 <= i < approved_submissions(records).len(),
    ensures
        approved_submissions(records)[i].status == "approved"@,
        forall|j: int|
            i < j < approved_submissions(records).len() ==> approved_submissions(
                records,
            )[i].submitted_at >= (#[trigger] approved_submissions(records)[j]).submitted_at,
{
    let keep = |r: ReleaseRecordView| is_approved(r);
    let show = |r: ReleaseRecordView| r.submission;
    let kept = records.filter(keep).map_values(show);
    let public = approved_submissions(records);
    sorting::lemma_sorted_by_rank::<ApplicationReleaseSubmission>(kept);
    sorting::lemma_same_members(public, kept);
    assert(public.contains(public[i]));
    let k = kept.index_of(public[i]);
    records.lemma_filter_pred(keep, k);
}

/// A new submission is not public before a review approves it, and is public
/// when one does.
pub proof fn law_submission_is_public_once_approved(
    submission: ApplicationReleaseSubmissionView,
    request: ReviewApplicationSubmissionRequestView,
    now: i64,
)
    ensures
        !is_approved(first_release(submission)),
        is_approved(reviewed(first_release(submission), request, now)) <==> request.approved,
{
    reveal_strlit("pending_review");
    reveal_strlit("approved");
    reveal_strlit("rejected");
    assert("pending_review"@.len() != "approved"@.len());
    assert("approved"@[0] != "rejected"@[0]);
}

/// A submission is complete where it names itself and its application.
pub proof fn law_complete_submission_names_its_application(
    submission: ApplicationReleaseSubmissionView,
)
    ensures
        is_complete(submission) <==> {
            &&& text::trimmed(submission.submission_id).len() > 0
            &&& text::trimmed(submission.app_id).len() > 0
        },
{
}

/// A submission is the customer's whose license was presented, whatever it says of
/// itself. One that is new is added as it is and waits for review; one that comes
/// again keeps its application, its review and who submitted it, and has the name,
/// the version, the content and the time that it comes with. No other is touched.
pub proof fn law_submission_is_kept_as_it_comes(
    records: Seq<ReleaseRecordView>,
    submission: ApplicationReleaseSubmissionView,
    subject: Seq<char>,
)
    ensures
        ({
            let taken = submitted_by_customer(submission, subject);
            let after = with_submission(records, taken);
            let is_new = forall|i: int|
                0 <= i < records.len() ==> (#[trigger] records[i]).submission.submission_id
                    != submission.submission_id;
            &&& taken.applicant_subject == subject
            &&& taken == (ApplicationReleaseSubmissionView {
                applicant_subject: subject,
                ..submission
            })
            &&& is_new ==> {
                &&& after.len() == records.len() + 1
                &&& forall|i: int| 0 <= i < records.len() ==> #[trigger] after[i] == records[i]
                &&& after.last().submission == (ApplicationReleaseSubmissionView {
                    status: "pending_review"@,
                    applicant_subject: subject,
                    ..submission
                })
                &&& after.last().reviewed_at is None
                &&& after.last().review_reason.len() == 0
            }
            &&& !is_new ==> {
                &&& after.len() == records.len()
                &&& forall|i: int|
                    0 <= i < records.len() ==> #[trigger] after[i] == (if records[
                        i
                    ].submission.submission_id != submission.submission_id {
                        records[i]
                    } else {
                        ReleaseRecordView {
                            submission: ApplicationReleaseSubmissionView {
                                submission_id: submission.submission_id,
                                app_id: records[i].submission.app_id,
                                status: records[i].submission.status,
                                submitted_by: records[i].submission.submitted_by,
                                applicant_subject: subject,
                                app_name: submission.app_name,
                                version: submission.version,
                                snapshot: submission.snapshot,
                                submitted_at: submission.submitted_at,
                            },
                            reviewed_at: records[i].reviewed_at,
                            review_reason: records[i].review_reason,
                        }
                    })
            }
        }),
{
    let id = submission.submission_id;
    lookup::lemma_found::<ReleaseRecord>(records, id);
    match lookup::found::<ReleaseRecord>(records, id) {
        Some(record) => {
            let k = records.index_of(record);
            assert(records[k].submission.submission_id == id);
        },
        None => {
            assert forall|i: int| 0 <= i < records.len() implies (
            #[trigger] records[i]).submission.submission_id != id by {
                assert(ReleaseRecord::key_of(records[i]) != id);
            }
        },
    }
}

/// A review approves or rejects the submission that it names, and says when and
/// why. It changes nothing else of it, and there is one of every submission that
/// is there.
pub proof fn law_review_decides_the_submission(
    submission_id: Seq<char>,
    request: ReviewApplicationSubmissionRequestView,
    records: Seq<ReleaseRecordView>,
    now: i64,
)
    ensures
        review_outcome(submission_id, request, records, now) matches Ok(record) ==> {
            let before = lookup::found::<ReleaseRecord>(records, submission_id)->Some_0;
            &&& records.contains(before)
            &&& record.submission.submission_id == submission_id
            &&& request.approved ==> record.submission.status == "approved"@
            &&& !request.approved ==> record.submission.status == "rejected"@
            &&& record.reviewed_at == Some(now)
            &&& record.review_reason == text::trimmed(request.reason)
            &&& record.submission == (ApplicationReleaseSubmissionView {
                status: record.submission.status,
                ..before.submission
            })
        },
        review_outcome(submission_id, request, records, now) is Ok <==> lookup::found::<
            ReleaseRecord,
        >(records, submission_id) is Some,
{
    lookup::lemma_found::<ReleaseRecord>(records, submission_id);
}

/// Every approved submission is public as it was submitted, and what is public was
/// submitted and approved.
pub proof fn law_approved_applications_are_public(
    records: Seq<ReleaseRecordView>,
    submission: ApplicationReleaseSubmissionView,
)
    ensures
        approved_submissions(records).contains(submission) <==> exists|i: int|
            0 <= i < records.len() && (#[trigger] records[i]).submission == submission
                && submission.status == "approved"@,
{
    let keep = |r: ReleaseRecordView| is_approved(r);
    let show = |r: ReleaseRecordView| r.submission;
    let kept = records.filter(keep);
    let shown = kept.map_values(show);
    let public = approved_submissions(records);
    sorting::lemma_sorted_by_rank::<ApplicationReleaseSubmission>(shown);
    sorting::lemma_same_members(public, shown);
    if public.contains(submission) {
        assert(shown.contains(submission));
        let k = shown.index_of(submission);
        sorting::lemma_left_is_wanted(records, keep, k);
        let i = records.index_of(kept[k]);
        assert(records[i].submission == submission);
    }
    if exists|i: int|
        0 <= i < records.len() && (#[trigger] records[i]).submission == submission
            && submission.status == "approved"@ {
        let i = choose|i: int|
            0 <= i < records.len() && (#[trigger] records[i]).submission == submission
                && submission.status == "approved"@;
        records.lemma_filter_contains(keep, i);
        assert(kept.contains(records[i]));
        let k = kept.index_of(records[i]);
        assert(shown[k] == submission);
        assert(shown.contains(submission));
    }
}

/// A review of a submission that is not there is refused as such.
pub proof fn law_review_of_nothing_is_refused(
    submission_id: Seq<char>,
    request: ReviewApplicationSubmissionRequestView,
    records: Seq<ReleaseRecordView>,
    now: i64,
)
    ensures
        review_outcome(submission_id, request, records, now) matches Err(e) ==> e.status == 404
            && forall|i: int|
            0 <= i < records.len() ==> (#[trigger] records[i]).submission.submission_id
                != submission_id,
{
    lookup::lemma_found::<ReleaseRecord>(records, submission_id);
    match lookup::found::<ReleaseRecord>(records, submission_id) {
        Some(_) => {},
        None => {
            assert forall|i: int| 0 <= i < records.len() implies (
            #[trigger] records[i]).submission.submission_id != submission_id by {
                assert(ReleaseRecord::key_of(records[i]) != submission_id);
            }
        },
    }
}

} // verus!
