//! Updating the tracked Pixiv users: one pass over the users with one
//! account, and the choice of the account for the next pass when Pixiv
//! refuses the login. The caller fetches; these functions decide.
use vstd::prelude::*;
use crate::narou::opt_string_view;
use crate::pdf::join_strings;
use crate::pixiv::{auth_failure_text, is_authentication_failure_text};
use crate::rotation::AccountRotation;
use crate::text::{decimal, join, push_decimal, push_str, string_from_chars, strings_view};

verus! {

/// What updating one tracked user gave.
#[derive(Debug, Clone)]
pub enum UserUpdate {
    /// The user's works were fetched: how many were stored, and what failed.
    Stored { user_id: String, downloaded_works: usize, failures: Vec<String> },
    /// Fetching the user failed; `authentication` says whether the error, or
    /// any of its causes, says Pixiv refused the login.
    Failed { user_id: String, message: String, authentication: bool },
}

/// The tally of a pass over the tracked users so far.
#[derive(Debug, Clone)]
pub struct UpdatePass {
    pub updated_users: usize,
    pub downloaded_works: usize,
    pub failures: Vec<String>,
}

/// After one user: go on with the tally, or stop because the login was
/// refused (with the error).
#[derive(Debug, Clone)]
pub enum PassStep {
    Next(UpdatePass),
    Refused(String),
}

/// A pass's tally as (users, works, failures).
pub type PassView = (nat, nat, Seq<Seq<char>>);

impl UpdatePass {
    pub open spec fn view(&self) -> PassView {
        (self.updated_users as nat, self.downloaded_works as nat, strings_view(self.failures@))
    }

    /// A pass that has seen no user yet.
    pub fn new() -> (r: Self)
        ensures
            r@ == (0nat, 0nat, Seq::<Seq<char>>::empty()),
    {
        let r = UpdatePass { updated_users: 0, downloaded_works: 0, failures: Vec::new() };
        assert(strings_view(r.failures@) =~= Seq::<Seq<char>>::empty());
        r
    }
}

/// The failure line of a user: `user {id}: {what}`.
pub open spec fn user_failure(user_id: Seq<char>, what: Seq<char>) -> Seq<char> {
    "user "@ + user_id + ": "@ + what
}

/// Whether any of the texts says Pixiv refused the login.
pub open spec fn any_auth_failure(texts: Seq<Seq<char>>) -> bool {
    exists|i: int| 0 <= i < texts.len() && auth_failure_text(#[trigger] texts[i])
}

/// What one user's update does to a pass: a stored user whose failures say
/// the login was refused, or a failure that says so, ends the pass with that
/// error; otherwise the user is counted, the works added, and any failures
/// noted under the user's id.
pub open spec fn pass_step(p: PassView, e: UserUpdate) -> Result<PassView, Seq<char>> {
    match e {
        UserUpdate::Stored { user_id, downloaded_works, failures } => {
            let f = strings_view(failures@);
            if any_auth_failure(f) {
                Err("pixiv authentication failed: "@ + join(f, ", "@))
            } else {
                Ok((
                    p.0 + 1,
                    p.1 + downloaded_works as nat,
                    if f.len() > 0 {
                        p.2.push(user_failure(user_id@, join(f, ", "@)))
                    } else {
                        p.2
                    },
                ))
            }
        },
        UserUpdate::Failed { user_id, message, authentication } => {
            if authentication {
                Err(message@)
            } else {
                Ok((p.0, p.1, p.2.push(user_failure(user_id@, message@))))
            }
        },
    }
}

/// The counts of a pass, as its messages give them.
pub open spec fn pass_counts(p: PassView) -> Seq<char> {
    "pixiv update refreshed "@ + decimal(p.0) + " tracked users and stored "@ + decimal(p.1) + " works"@
}

/// How a finished pass ends: its counts, or, where some users failed, an
/// error with the counts and the failures.
pub open spec fn pass_end(p: PassView) -> Result<Seq<char>, Seq<char>> {
    if p.2.len() > 0 {
        Err(pass_counts(p) + ", but some updates failed: "@ + join(p.2, "; "@))
    } else {
        Ok(pass_counts(p))
    }
}

fn any_authentication_failure(texts: &Vec<String>) -> (r: bool)
    ensures
        r == any_auth_failure(strings_view(texts@)),
{
    let mut i: usize = 0;
    while i < texts.len()
        invariant
            i <= texts.len(),
            forall|k: int| 0 <= k < i ==> !auth_failure_text(#[trigger] strings_view(texts@)[k]),
        decreases texts.len() - i,
    {
        assert(strings_view(texts@)[i as int] == texts@[i as int]@);
        if is_authentication_failure_text(texts[i].as_str()) {
            return true;
        }
        i = i + 1;
    }
    false
}

fn failure_line(user_id: &str, what: &[char]) -> (r: String)
    ensures
        r@ == user_failure(user_id@, what@),
{
    let mut t: Vec<char> = Vec::new();
    push_str(&mut t, "user ");
    push_str(&mut t, user_id);
    push_str(&mut t, ": ");
    let mut i: usize = 0;
    let ghost start = t@;
    while i < what.len()
        invariant
            i <= what.len(),
            t@ == start + what@.take(i as int),
        decreases what.len() - i,
    {
        t.push(what[i]);
        assert(what@.take(i + 1) =~= what@.take(i as int).push(what@[i as int]));
        i = i + 1;
    }
    assert(what@.take(i as int) =~= what@);
    string_from_chars(t.as_slice())
}

/// Takes one user's update into a pass.
pub fn update_pass_step(pass: UpdatePass, event: UserUpdate) -> (r: PassStep)
    requires
        pass.updated_users < usize::MAX,
        event matches UserUpdate::Stored { downloaded_works, .. } ==> pass.downloaded_works + downloaded_works
            <= usize::MAX,
    ensures
        match r {
            PassStep::Next(q) => pass_step(pass@, event) == Ok::<PassView, Seq<char>>(q@),
            PassStep::Refused(e) => pass_step(pass@, event) == Err::<PassView, Seq<char>>(e@),
        },
{
    let UpdatePass { updated_users, downloaded_works: works, mut failures } = pass;
    let ghost fv = strings_view(failures@);
    match event {
        UserUpdate::Stored { user_id, downloaded_works, failures: user_failures } => {
            let joined = join_strings(&user_failures, ", ");
            if any_authentication_failure(&user_failures) {
                let mut t: Vec<char> = Vec::new();
                push_str(&mut t, "pixiv authentication failed: ");
                let ghost start = t@;
                let mut i: usize = 0;
                while i < joined.len()
                    invariant
                        i <= joined.len(),
                        t@ == start + joined@.take(i as int),
                    decreases joined.len() - i,
                {
                    t.push(joined[i]);
                    assert(joined@.take(i + 1) =~= joined@.take(i as int).push(joined@[i as int]));
                    i = i + 1;
                }
                assert(joined@.take(i as int) =~= joined@);
                return PassStep::Refused(string_from_chars(t.as_slice()));
            }
            if user_failures.len() > 0 {
                let line = failure_line(user_id.as_str(), joined.as_slice());
                failures.push(line);
                assert(strings_view(failures@) =~= fv.push(line@));
            }
            PassStep::Next(UpdatePass { updated_users: updated_users + 1, downloaded_works: works + downloaded_works, failures })
        },
        UserUpdate::Failed { user_id, message, authentication } => {
            if authentication {
                return PassStep::Refused(message);
            }
            let m = crate::text::chars_of(message.as_str());
            let line = failure_line(user_id.as_str(), m.as_slice());
            failures.push(line);
            assert(strings_view(failures@) =~= fv.push(line@));
            PassStep::Next(UpdatePass { updated_users, downloaded_works: works, failures })
        },
    }
}

/// How a pass that went through every user ends.
pub fn update_pass_end(pass: &UpdatePass) -> (r: Result<String, String>)
    ensures
        match r {
            Ok(m) => pass_end(pass@) == Ok::<Seq<char>, Seq<char>>(m@),
            Err(e) => pass_end(pass@) == Err::<Seq<char>, Seq<char>>(e@),
        },
{
    let mut t: Vec<char> = Vec::new();
    push_str(&mut t, "pixiv update refreshed ");
    push_decimal(&mut t, pass.updated_users as u64);
    push_str(&mut t, " tracked users and stored ");
    push_decimal(&mut t, pass.downloaded_works as u64);
    push_str(&mut t, " works");
    assert(t@ == pass_counts(pass@));
    if pass.failures.len() == 0 {
        assert(strings_view(pass.failures@).len() == 0);
        return Ok(string_from_chars(t.as_slice()));
    }
    push_str(&mut t, ", but some updates failed: ");
    let joined = join_strings(&pass.failures, "; ");
    let ghost start = t@;
    let mut i: usize = 0;
    while i < joined.len()
        invariant
            i <= joined.len(),
            t@ == start + joined@.take(i as int),
        decreases joined.len() - i,
    {
        t.push(joined[i]);
        assert(joined@.take(i + 1) =~= joined@.take(i as int).push(joined@[i as int]));
        i = i + 1;
    }
    assert(joined@.take(i as int) =~= joined@);
    Err(string_from_chars(t.as_slice()))
}

// ---------------------------------------------------------------------------
// Which account the next pass uses
// ---------------------------------------------------------------------------

/// What to do next: run a pass with the named account (with the client of
/// no stored account where `None`), or stop with the result, keeping the
/// named account as the active one where it is given.
#[derive(Debug)]
pub enum UpdateAction {
    Run(Option<String>),
    Done { result: Result<String, String>, keep: Option<String> },
}

/// How a pass ended: with its result, or with the login refused.
#[derive(Debug)]
pub enum PassEnd {
    Finished(Result<String, String>),
    Refused(String),
}

/// An action as plain values: `Run(account)` or `Done(result, keep)`.
pub enum ActionView {
    Run(Option<Seq<char>>),
    Done(Result<Seq<char>, Seq<char>>, Option<Seq<char>>),
}

pub open spec fn result_view(r: Result<String, String>) -> Result<Seq<char>, Seq<char>> {
    match r {
        Ok(m) => Ok(m@),
        Err(e) => Err(e@),
    }
}

impl UpdateAction {
    pub open spec fn view(&self) -> ActionView {
        match self {
            UpdateAction::Run(a) => ActionView::Run(opt_string_view(*a)),
            UpdateAction::Done { result, keep } => ActionView::Done(result_view(*result), opt_string_view(*keep)),
        }
    }
}

/// The account a rotation is at, if any.
pub open spec fn at(order: Seq<Seq<char>>, index: nat) -> Option<Seq<char>> {
    if index < order.len() {
        Some(order[index as int])
    } else {
        None
    }
}

/// How an update starts: with no tracked users it is skipped; with no
/// candidate accounts one pass runs with the default client; otherwise the
/// first account of the rotation is tried, and a rotation without accounts
/// fails.
pub open spec fn update_start(tracked_users: nat, candidates: Seq<Seq<char>>, order: Seq<Seq<char>>) -> ActionView {
    if tracked_users == 0 {
        ActionView::Done(Ok("pixiv update skipped; no tracked users in stored settings"@), None)
    } else if candidates.len() == 0 {
        ActionView::Run(None)
    } else {
        match at(order, 0) {
            Some(a) => ActionView::Run(Some(a)),
            None => ActionView::Done(Err("pixiv update failed with every configured account"@), None),
        }
    }
}

/// What follows a pass run with the account at `index` of `order` (with the
/// default client where there is none): success keeps that account; an
/// error that is not a refused login ends the update; a refused login moves
/// to the next account, or ends the update with that error after the last.
pub open spec fn update_transition(order: Seq<Seq<char>>, index: nat, event: PassEnd) -> (nat, ActionView) {
    let refused: Option<Seq<char>> = match event {
        PassEnd::Refused(e) => Some(e@),
        PassEnd::Finished(Err(e)) => if auth_failure_text(e@) {
            Some(e@)
        } else {
            None
        },
        PassEnd::Finished(Ok(_)) => None,
    };
    match event {
        PassEnd::Finished(Ok(m)) => (index, ActionView::Done(Ok(m@), at(order, index))),
        _ => match refused {
            Some(e) => if index < order.len() && index + 1 < order.len() {
                ((index + 1) as nat, ActionView::Run(Some(order[index + 1 as int])))
            } else {
                (index, ActionView::Done(Err(e), None))
            },
            None => (index, ActionView::Done(Err(match event {
                PassEnd::Finished(Err(e)) => e@,
                _ => Seq::empty(),
            }), None)),
        },
    }
}

/// The rotation over the candidate accounts (the first one taken as the
/// active one) and the first action of an update.
pub fn update_begin(tracked_users: usize, candidates: Vec<String>) -> (r: (AccountRotation, UpdateAction))
    ensures
        r.0.wf(),
        r.0.index() == 0,
        r.0.order() == (if candidates@.len() > 0 {
            crate::rotation::rotation_order(Some(candidates@[0]@), strings_view(candidates@))
        } else {
            crate::rotation::rotation_order(None, Seq::empty())
        }),
        r.1@ == update_start(tracked_users as nat, strings_view(candidates@), r.0.order()),
{
    let count = candidates.len();
    let rotation = if count > 0 {
        let first = candidates[0].clone();
        AccountRotation::new(Some(first.as_str()), candidates)
    } else {
        AccountRotation::new(None, Vec::new())
    };
    proof {
        assert(Seq::<String>::empty().map_values(|s: String| s@) =~= Seq::<Seq<char>>::empty());
        reveal_strlit("pixiv update skipped; no tracked users in stored settings");
    }
    if tracked_users == 0 {
        return (rotation, UpdateAction::Done {
            result: Ok(crate::text::owned("pixiv update skipped; no tracked users in stored settings")),
            keep: None,
        });
    }
    if count == 0 {
        return (rotation, UpdateAction::Run(None));
    }
    let action = match rotation.current() {
        Some(a) => UpdateAction::Run(Some(crate::text::owned(a))),
        None => UpdateAction::Done {
            result: Err(crate::text::owned("pixiv update failed with every configured account")),
            keep: None,
        },
    };
    (rotation, action)
}

/// Takes the end of a pass and says what follows.
pub fn update_step(rotation: &mut AccountRotation, event: PassEnd) -> (r: UpdateAction)
    requires
        old(rotation).wf(),
    ensures
        final(rotation).wf(),
        final(rotation).order() == old(rotation).order(),
        (final(rotation).index(), r@) == update_transition(old(rotation).order(), old(rotation).index(), event),
{
    let ghost ev = event;
    match event {
        PassEnd::Finished(Ok(m)) => {
            let keep = match rotation.current() {
                Some(a) => Some(crate::text::owned(a)),
                None => None,
            };
            UpdateAction::Done { result: Ok(m), keep }
        },
        PassEnd::Finished(Err(e)) => {
            if is_authentication_failure_text(e.as_str()) {
                advance(rotation, e)
            } else {
                UpdateAction::Done { result: Err(e), keep: None }
            }
        },
        PassEnd::Refused(e) => advance(rotation, e),
    }
}

/// After a refused login: the next account, or the error after the last.
fn advance(rotation: &mut AccountRotation, error: String) -> (r: UpdateAction)
    requires
        old(rotation).wf(),
    ensures
        final(rotation).wf(),
        final(rotation).order() == old(rotation).order(),
        old(rotation).index() < old(rotation).order().len() && old(rotation).index() + 1 < old(rotation).order().len()
            ==> final(rotation).index() == old(rotation).index() + 1 && r@ == ActionView::Run(
            Some(old(rotation).order()[old(rotation).index() + 1 as int]),
        ),
        !(old(rotation).index() < old(rotation).order().len() && old(rotation).index() + 1 < old(rotation).order().len())
            ==> final(rotation).index() == old(rotation).index() && r@ == ActionView::Done(Err(error@), None),
{
    if rotation.current().is_none() {
        return UpdateAction::Done { result: Err(error), keep: None };
    }
    match rotation.mark_failed() {
        Some(next) => UpdateAction::Run(Some(crate::text::owned(next))),
        None => UpdateAction::Done { result: Err(error), keep: None },
    }
}

} // verus!
