//! The decisions of the offline OpenFeint replacement: which messages to the
//! dead SDK it answers, and the local high score table.
//!
//! Reading the arguments out of the registers, answering through them, and
//! keeping the stores on disk are the caller's work.

use crate::of_dashboard::{blocks_from, closing, element_blocks, opening, tag_text, tag_text_of};
use crate::text::{
    chars_of, decimal, decimal_string, ends_with, find_pattern, find_seq, has_suffix, lines, lines_of,
    owned, push_char, parse_i64,
    parse_u64, parsed_i64, parsed_u64, signed_decimal, signed_decimal_string, split_on,
    split_str, str_eq, str_views,
};
use vstd::prelude::*;
use vstd::string::*;

verus! {

broadcast use vstd::string::group_string_axioms;

/// The dashboard page to show.
#[derive(Clone, Copy, Debug, PartialEq, Eq, Structural)]
pub enum DashboardPage {
    Achievements,
    Leaderboards,
}

/// A message to OpenFeint that the replacement answers, by what it does.
#[derive(Clone, Copy, Debug, PartialEq, Eq, Structural)]
pub enum OpenFeintCall {
    /// `initializeWithProductKey:...`: succeed without networking.
    Initialize,
    /// `hasUserApprovedFeint`: yes.
    HasUserApprovedFeint,
    /// `userDidApproveFeint:`: nothing to do.
    UserDidApproveFeint,
    /// `versionNumber`: an OpenFeint 2.10-ish version.
    VersionNumber,
    /// `dismissDashboard`.
    DismissDashboard,
    /// `launchDashboard...` and `presentDashboard`, on the page named.
    LaunchDashboard(DashboardPage),
    /// `isOnline`, `isUserLoggedIn`: yes.
    IsOnline,
    /// Progress on one achievement, with its percentage.
    UpdateAchievement,
    /// Progress on several achievements at once.
    UpdateAchievements,
    /// One achievement unlocked, with a notification.
    UnlockAchievement,
    /// Several achievements unlocked, with notifications.
    UnlockAchievements,
    /// One achievement unlocked silently, to be submitted later.
    QueueUnlockedAchievement,
    /// Submit the queued unlocks.
    SubmitQueued,
    /// Whether an achievement is already unlocked.
    AlreadyUnlocked,
    /// `setAutomaticallyPromptToPostUnlocks`: consumed.
    SetAutomaticallyPrompt,
    /// `setHighScore...`: a new score on a leaderboard.
    SetHighScore,
}

/// `s` starts with `prefix`.
pub open spec fn starts(s: Seq<char>, prefix: Seq<char>) -> bool {
    prefix.is_prefix_of(s)
}

/// `s` contains `part`.
pub open spec fn holds(s: Seq<char>, part: Seq<char>) -> bool {
    find_seq(s, part) is Some
}

/// The dashboard page a `launchDashboard...` selector asks for.
pub open spec fn page_for(sel: Seq<char>) -> DashboardPage {
    if holds(sel, "Achievement"@) {
        DashboardPage::Achievements
    } else if holds(sel, "Leaderboard"@) || holds(sel, "Highscore"@) {
        DashboardPage::Leaderboards
    } else {
        DashboardPage::Achievements
    }
}

/// What a message `sel` to the class `class` does, for the messages the
/// replacement answers.
pub open spec fn call_for(class: Seq<char>, sel: Seq<char>) -> Option<OpenFeintCall> {
    if class == "OpenFeint"@ {
        if sel == "initializeWithProductKey:andSecret:andDisplayName:andSettings:andDelegates:"@
            || sel == "initializeWithProductKey:andDelegates:"@ {
            Some(OpenFeintCall::Initialize)
        } else if sel == "hasUserApprovedFeint"@ {
            Some(OpenFeintCall::HasUserApprovedFeint)
        } else if sel == "userDidApproveFeint:"@ {
            Some(OpenFeintCall::UserDidApproveFeint)
        } else if sel == "versionNumber"@ {
            Some(OpenFeintCall::VersionNumber)
        } else if sel == "dismissDashboard"@ {
            Some(OpenFeintCall::DismissDashboard)
        } else if starts(sel, "launchDashboard"@) || sel == "presentDashboard"@ {
            Some(OpenFeintCall::LaunchDashboard(page_for(sel)))
        } else if sel == "isOnline"@ || sel == "isUserLoggedIn"@ {
            Some(OpenFeintCall::IsOnline)
        } else {
            None
        }
    } else if class == "OFAchievementService"@ {
        if sel == "updateAchievement:andPercentComplete:andShowNotification:"@ || sel
            == "updateAchievement:andPercentComplete:andShowNotification:onSuccessInvocation:onFailureInvocation:"@
            || sel == "queueUpdateAchievement:andPercentComplete:andShowNotification:"@ || sel
            == "queueUpdateAchievement:andPercentComplete:andShowNotification:onSuccessInvocation:onFailureInvocation:"@
            || sel == "localUpdateAchievement:forUser:andPercentComplete:"@ {
            Some(OpenFeintCall::UpdateAchievement)
        } else if sel
            == "updateAchievements:withPercentCompletes:onSuccessInvocation:onFailureInvocation:"@ {
            Some(OpenFeintCall::UpdateAchievements)
        } else if sel == "unlockAchievement:"@ || sel == "unlockAchievement:onSuccess:onFailure:"@ {
            Some(OpenFeintCall::UnlockAchievement)
        } else if sel == "unlockAchievements:onSuccess:onFailure:"@ {
            Some(OpenFeintCall::UnlockAchievements)
        } else if sel == "queueUnlockedAchievement:"@ {
            Some(OpenFeintCall::QueueUnlockedAchievement)
        } else if sel == "submitQueuedUnlockedAchievements:onFailure:"@ || sel
            == "submitQueuedUpadteAchievements:onFailure:"@ {
            Some(OpenFeintCall::SubmitQueued)
        } else if sel == "alreadyUnlockedAchievement:forUser:"@ {
            Some(OpenFeintCall::AlreadyUnlocked)
        } else if sel == "setAutomaticallyPromptToPostUnlocks:"@ || sel
            == "setAutomaticallyPromptToPostUnlocks"@ {
            Some(OpenFeintCall::SetAutomaticallyPrompt)
        } else {
            None
        }
    } else if class == "OFHighScoreService"@ && starts(sel, "setHighScore"@) {
        Some(OpenFeintCall::SetHighScore)
    } else {
        None
    }
}

/// Whether `part` occurs in `s`.
fn contains_str(s: &str, part: &str) -> (r: bool)
    ensures
        r == holds(s@, part@),
{
    let cs = chars_of(s);
    let ps = chars_of(part);
    find_pattern(cs.as_slice(), ps.as_slice()).is_some()
}

/// Whether `s` starts with `prefix`.
fn starts_with(s: &str, prefix: &str) -> (r: bool)
    ensures
        r == starts(s@, prefix@),
{
    let cs = chars_of(s);
    let ps = chars_of(prefix);
    if ps.len() > cs.len() {
        return false;
    }
    let mut i: usize = 0;
    while i < ps.len()
        invariant
            cs@ == s@,
            ps@ == prefix@,
            ps@.len() <= cs@.len(),
            i <= ps@.len(),
            forall|k: int| 0 <= k < i ==> cs@[k] == ps@[k],
        decreases ps@.len() - i,
    {
        if cs[i] != ps[i] {
            proof {
                if starts(s@, prefix@) {
                    assert(s@.subrange(0, prefix@.len() as int)[i as int] == s@[i as int]);
                }
            }
            return false;
        }
        i = i + 1;
    }
    assert(s@.subrange(0, prefix@.len() as int) =~= prefix@);
    true
}

/// The dashboard page a `launchDashboard...` selector asks for.
pub fn dashboard_page(sel: &str) -> (r: DashboardPage)
    ensures
        r == page_for(sel@),
{
    if contains_str(sel, "Achievement") {
        DashboardPage::Achievements
    } else if contains_str(sel, "Leaderboard") || contains_str(sel, "Highscore") {
        DashboardPage::Leaderboards
    } else {
        DashboardPage::Achievements
    }
}

/// Whether the offline replacement answers the message `sel` sent to the
/// class `class_name`, and what it does: the SDK's own code never runs for
/// those. Every other message goes on to the SDK's fake classes.
pub fn try_openfeint_interpose(class_name: &str, sel: &str) -> (r: Option<OpenFeintCall>)
    ensures
        r == call_for(class_name@, sel@),
{
    if str_eq(class_name, "OpenFeint") {
        if str_eq(sel, "initializeWithProductKey:andSecret:andDisplayName:andSettings:andDelegates:")
            || str_eq(sel, "initializeWithProductKey:andDelegates:") {
            Some(OpenFeintCall::Initialize)
        } else if str_eq(sel, "hasUserApprovedFeint") {
            Some(OpenFeintCall::HasUserApprovedFeint)
        } else if str_eq(sel, "userDidApproveFeint:") {
            Some(OpenFeintCall::UserDidApproveFeint)
        } else if str_eq(sel, "versionNumber") {
            Some(OpenFeintCall::VersionNumber)
        } else if str_eq(sel, "dismissDashboard") {
            Some(OpenFeintCall::DismissDashboard)
        } else if starts_with(sel, "launchDashboard") || str_eq(sel, "presentDashboard") {
            Some(OpenFeintCall::LaunchDashboard(dashboard_page(sel)))
        } else if str_eq(sel, "isOnline") || str_eq(sel, "isUserLoggedIn") {
            Some(OpenFeintCall::IsOnline)
        } else {
            None
        }
    } else if str_eq(class_name, "OFAchievementService") {
        if str_eq(sel, "updateAchievement:andPercentComplete:andShowNotification:") || str_eq(
            sel,
            "updateAchievement:andPercentComplete:andShowNotification:onSuccessInvocation:onFailureInvocation:",
        ) || str_eq(sel, "queueUpdateAchievement:andPercentComplete:andShowNotification:")
            || str_eq(
            sel,
            "queueUpdateAchievement:andPercentComplete:andShowNotification:onSuccessInvocation:onFailureInvocation:",
        ) || str_eq(sel, "localUpdateAchievement:forUser:andPercentComplete:") {
            Some(OpenFeintCall::UpdateAchievement)
        } else if str_eq(
            sel,
            "updateAchievements:withPercentCompletes:onSuccessInvocation:onFailureInvocation:",
        ) {
            Some(OpenFeintCall::UpdateAchievements)
        } else if str_eq(sel, "unlockAchievement:") || str_eq(
            sel,
            "unlockAchievement:onSuccess:onFailure:",
        ) {
            Some(OpenFeintCall::UnlockAchievement)
        } else if str_eq(sel, "unlockAchievements:onSuccess:onFailure:") {
            Some(OpenFeintCall::UnlockAchievements)
        } else if str_eq(sel, "queueUnlockedAchievement:") {
            Some(OpenFeintCall::QueueUnlockedAchievement)
        } else if str_eq(sel, "submitQueuedUnlockedAchievements:onFailure:") || str_eq(
            sel,
            "submitQueuedUpadteAchievements:onFailure:",
        ) {
            Some(OpenFeintCall::SubmitQueued)
        } else if str_eq(sel, "alreadyUnlockedAchievement:forUser:") {
            Some(OpenFeintCall::AlreadyUnlocked)
        } else if str_eq(sel, "setAutomaticallyPromptToPostUnlocks:") || str_eq(
            sel,
            "setAutomaticallyPromptToPostUnlocks",
        ) {
            Some(OpenFeintCall::SetAutomaticallyPrompt)
        } else {
            None
        }
    } else if str_eq(class_name, "OFHighScoreService") && starts_with(sel, "setHighScore") {
        Some(OpenFeintCall::SetHighScore)
    } else {
        None
    }
}

// MARK: - High scores

/// The 64-bit score of `+setHighScore:...`, which the ARM calling
/// convention passes in the register pair `r2` (low half) and `r3` (high
/// half): the two's complement value of the 64 bits.
pub open spec fn score_of(low: u32, high: u32) -> int {
    let bits = high as int * 0x1_0000_0000 + low as int;
    if bits >= 0x8000_0000_0000_0000 {
        bits - 0x1_0000_0000_0000_0000
    } else {
        bits
    }
}

/// The score passed in the register pair `low`, `high`.
pub fn high_score_argument(low: u32, high: u32) -> (r: i64)
    ensures
        r == score_of(low, high),
{
    let bits: u64 = (high as u64) * 0x1_0000_0000 + (low as u64);
    if bits >= 0x8000_0000_0000_0000 {
        let magnitude: u64 = (u64::MAX - bits) + 1;
        if magnitude == 0x8000_0000_0000_0000 {
            i64::MIN
        } else {
            -(magnitude as i64)
        }
    } else {
        bits as i64
    }
}

/// The stack slot of the parameter named `name` of a `setHighScore...`
/// selector split at its colons into `parts`: the part that is or ends with
/// `name` gives the parameter, and parameters after the first two (the
/// score takes the registers `r2` and `r3`) are on the stack from slot 0.
pub open spec fn slot_from(parts: Seq<Seq<char>>, name: Seq<char>, i: int) -> Option<int>
    decreases parts.len() - i,
{
    if i < 0 || i >= parts.len() {
        None
    } else if parts[i] == name || has_suffix(parts[i], name) {
        if i >= 1 {
            Some(i - 1)
        } else {
            None
        }
    } else {
        slot_from(parts, name, i + 1)
    }
}

/// The stack slot of the parameter named `name` of the `setHighScore...`
/// selector `sel`.
pub fn parameter_slot(sel: &str, name: &str) -> (r: Option<usize>)
    ensures
        r matches Some(k) ==> slot_from(split_on(sel@, ':'), name@, 0) == Some(k as int),
        r is None ==> slot_from(split_on(sel@, ':'), name@, 0) is None,
{
    let parts = split_str(sel, ':');
    let ghost pv = str_views(parts@);
    let mut i: usize = 0;
    while i < parts.len()
        invariant
            pv == str_views(parts@),
            pv == split_on(sel@, ':'),
            i <= parts@.len(),
            slot_from(pv, name@, 0) == slot_from(pv, name@, i as int),
        decreases parts@.len() - i,
    {
        assert(pv[i as int] == parts@[i as int]@);
        if str_eq(parts[i], name) || ends_with(parts[i], name) {
            if i >= 1 {
                return Some(i - 1);
            } else {
                return None;
            }
        }
        i = i + 1;
    }
    None
}

/// A leaderboard's best score and the text it is shown with.
#[derive(Clone, Debug)]
pub struct HighScoreEntry {
    pub score: i64,
    pub display: String,
}

/// The best scores, by leaderboard.
#[derive(Debug)]
pub struct HighScores {
    entries: Vec<(String, HighScoreEntry)>,
}

/// The position in `entries` from `i` on of the leaderboard `id`.
pub open spec fn board_index_from(entries: Seq<(String, HighScoreEntry)>, id: Seq<char>, i: int) -> Option<int>
    decreases entries.len() - i,
{
    if i < 0 || i >= entries.len() {
        None
    } else if entries[i].0@ == id {
        Some(i)
    } else {
        board_index_from(entries, id, i + 1)
    }
}

/// The best score and its text on the leaderboard `id`, if it has one.
pub open spec fn best_of(entries: Seq<(String, HighScoreEntry)>, id: Seq<char>) -> Option<(i64, Seq<char>)> {
    match board_index_from(entries, id, 0) {
        Some(i) => Some((entries[i].1.score, entries[i].1.display@)),
        None => None,
    }
}

/// A leaderboard's entry after a score: the score where it beats the best
/// so far (a new leaderboard's best so far being the least score there is),
/// with the new text unless that is empty.
pub open spec fn after_score(best: Option<(i64, Seq<char>)>, score: i64, display: Seq<char>) -> (i64, Seq<char>) {
    let (old_score, old_display) = match best {
        Some(b) => b,
        None => (i64::MIN, Seq::empty()),
    };
    if score > old_score {
        (score, if display.len() == 0 { old_display } else { display })
    } else {
        (old_score, old_display)
    }
}

proof fn lemma_board_index_from(entries: Seq<(String, HighScoreEntry)>, id: Seq<char>, i: int)
    requires
        0 <= i,
    ensures
        board_index_from(entries, id, i) matches Some(k) ==> i <= k < entries.len() && entries[k].0@ == id,
        board_index_from(entries, id, i) is None ==> forall|k: int| i <= k < entries.len() ==> entries[k].0@ != id,
    decreases entries.len() - i,
{
    if i < entries.len() && entries[i].0@ != id {
        lemma_board_index_from(entries, id, i + 1);
    }
}

proof fn lemma_board_same_keys(a: Seq<(String, HighScoreEntry)>, b: Seq<(String, HighScoreEntry)>, q: Seq<char>, i: int)
    requires
        0 <= i,
        a.len() == b.len(),
        forall|k: int| 0 <= k < a.len() ==> a[k].0@ == b[k].0@,
    ensures
        board_index_from(a, q, i) == board_index_from(b, q, i),
    decreases a.len() - i,
{
    if i < a.len() {
        lemma_board_same_keys(a, b, q, i + 1);
    }
}

proof fn lemma_board_push(s: Seq<(String, HighScoreEntry)>, e: (String, HighScoreEntry), q: Seq<char>, i: int)
    requires
        0 <= i <= s.len(),
        board_index_from(s, q, i) is None ==> true,
    ensures
        e.0@ != q ==> board_index_from(s.push(e), q, i) == board_index_from(s, q, i),
        (forall|k: int| i <= k < s.len() ==> s[k].0@ != q) && e.0@ == q ==> board_index_from(s.push(e), q, i) == Some(s.len() as int),
    decreases s.len() - i,
{
    if i < s.len() {
        assert(s.push(e)[i] == s[i]);
        lemma_board_push(s, e, q, i + 1);
    } else {
        assert(s.push(e)[i] == e);
        assert(board_index_from(s.push(e), q, i + 1) is None);
    }
}

impl HighScores {
    pub closed spec fn entries(&self) -> Seq<(String, HighScoreEntry)> {
        self.entries@
    }

    /// The best score and its text on the leaderboard `id`.
    pub open spec fn best(&self, id: Seq<char>) -> Option<(i64, Seq<char>)> {
        best_of(self.entries(), id)
    }

    /// No scores.
    pub fn new() -> (r: HighScores)
        ensures
            forall|id: Seq<char>| r.best(id) is None,
    {
        HighScores { entries: Vec::new() }
    }

    /// The best score and its text on the leaderboard `id`.
    pub fn best_score(&self, id: &str) -> (r: Option<(i64, String)>)
        ensures
            match r {
                Some((score, display)) => self.best(id@) == Some((score, display@)),
                None => self.best(id@) is None,
            },
    {
        let wanted = id.to_owned();
        let mut i: usize = 0;
        while i < self.entries.len()
            invariant
                wanted@ == id@,
                i <= self.entries@.len(),
                board_index_from(self.entries@, id@, 0) == board_index_from(self.entries@, id@, i as int),
            decreases self.entries@.len() - i,
        {
            let same = self.entries[i].0 == wanted;
            if same {
                let e = &self.entries[i].1;
                let display = e.display.as_str().to_owned();
                return Some((e.score, display));
            }
            i = i + 1;
        }
        None
    }

    /// Record `score` on the leaderboard `id`, shown as `display`: it becomes
    /// the best where it beats the best so far. Whether it did is handed back.
    pub fn record_high_score(&mut self, id: &str, score: i64, display: &str) -> (r: bool)
        ensures
            r == (match old(self).best(id@) {
                Some((best, _)) => score > best,
                None => score > i64::MIN,
            }),
            final(self).best(id@) == Some(after_score(old(self).best(id@), score, display@)),
            forall|other: Seq<char>| other != id@ ==> final(self).best(other) == old(self).best(other),
    {
        let wanted = id.to_owned();
        let ghost before = self.entries@;
        assert(before == old(self).entries());
        proof {
            lemma_board_index_from(before, id@, 0);
        }
        let mut i: usize = 0;
        while i < self.entries.len()
            invariant
                wanted@ == id@,
                self.entries@ == before,
                before == old(self).entries(),
                i <= before.len(),
                board_index_from(before, id@, 0) == board_index_from(before, id@, i as int),
            decreases before.len() - i,
        {
            let same = self.entries[i].0 == wanted;
            if same {
                let old_score = self.entries[i].1.score;
                if score > old_score {
                    let new_display = if display.is_empty() {
                        self.entries[i].1.display.as_str().to_owned()
                    } else {
                        display.to_owned()
                    };
                    let key = self.entries[i].0.as_str().to_owned();
                    assert(board_index_from(before, id@, i as int) == Some(i as int));
                    self.entries.set(i, (key, HighScoreEntry { score, display: new_display }));
                    proof {
                        assert forall|q: Seq<char>|
                            board_index_from(self.entries@, q, 0) == board_index_from(before, q, 0) by {
                            lemma_board_same_keys(self.entries@, before, q, 0);
                        }
                        assert forall|q: Seq<char>| q != id@ implies best_of(self.entries@, q)
                            == best_of(before, q) by {
                            lemma_board_index_from(before, q, 0);
                        }
                        assert(best_of(before, id@) == Some((old_score, before[i as int].1.display@)));
                        assert(board_index_from(self.entries@, id@, 0) == Some(i as int));
                        assert(self.entries@[i as int].1.display@ == new_display@);
                        assert(best_of(self.entries@, id@) == Some((score, new_display@)));
                        assert(final(self).best(id@) == best_of(self.entries@, id@));
                    }
                    return true;
                }
                assert(board_index_from(before, id@, i as int) == Some(i as int));
                return false;
            }
            i = i + 1;
        }
        let (new_score, new_display) = if score > i64::MIN {
            (score, display.to_owned())
        } else {
            (i64::MIN, String::new())
        };
        let e = (wanted, HighScoreEntry { score: new_score, display: new_display });
        self.entries.push(e);
        proof {
            assert forall|q: Seq<char>| q != id@ implies board_index_from(self.entries@, q, 0) == board_index_from(before, q, 0) by {
                lemma_board_push(before, e, q, 0);
            }
            lemma_board_push(before, e, id@, 0);
            assert forall|q: Seq<char>| q != id@ implies best_of(self.entries@, q) == best_of(before, q) by {
                lemma_board_push(before, e, q, 0);
                lemma_board_index_from(before, q, 0);
            }
        }
        score > i64::MIN
    }
}

/// A leaderboard's best score never goes down.
pub proof fn lemma_best_score_never_decreases(best: Option<(i64, Seq<char>)>, score: i64, display: Seq<char>)
    ensures
        best matches Some((b, _)) ==> after_score(best, score, display).0 >= b,
        after_score(best, score, display).0 >= score,
{
}

/// What the score store's line `line` records: a leaderboard, a score
/// that reads as a 64-bit number, and the text it is shown with (empty where
/// the line has none).
pub open spec fn score_record(line: Seq<char>) -> Option<(Seq<char>, i64, Seq<char>)> {
    let parts = split_on(line, '\t');
    if parts.len() < 2 {
        None
    } else {
        match parsed_i64(parts[1]) {
            Some(v) => Some(
                (parts[0], v, if parts.len() > 2 {
                    parts[2]
                } else {
                    Seq::empty()
                }),
            ),
            None => None,
        }
    }
}

/// The entry the first `n` lines leave for the leaderboard `id`: the last
/// record for it among them, else `before`.
pub open spec fn loaded_best(lines: Seq<Seq<char>>, n: int, id: Seq<char>, before: Option<(i64, Seq<char>)>) -> Option<(i64, Seq<char>)>
    decreases n,
{
    if n <= 0 {
        before
    } else {
        match score_record(lines[n - 1]) {
            Some((b, v, d)) => if b == id {
                Some((v, d))
            } else {
                loaded_best(lines, n - 1, id, before)
            },
            None => loaded_best(lines, n - 1, id, before),
        }
    }
}

/// What the score store's line `line` records.
pub fn read_score_record(line: &str) -> (r: Option<(String, i64, String)>)
    ensures
        match r {
            Some((b, v, d)) => score_record(line@) == Some((b@, v, d@)),
            None => score_record(line@) is None,
        },
{
    let parts = split_str(line, '\t');
    let ghost pv = str_views(parts@);
    assert(parts@.len() == pv.len());
    if parts.len() < 2 {
        return None;
    }
    assert(pv[0] == parts@[0]@);
    assert(pv[1] == parts@[1]@);
    let score = match parse_i64(parts[1]) {
        Some(v) => v,
        None => return None,
    };
    let display = if parts.len() > 2 {
        assert(pv[2] == parts@[2]@);
        parts[2].to_owned()
    } else {
        String::new()
    };
    Some((parts[0].to_owned(), score, display))
}

impl HighScores {
    /// Set the entry of the leaderboard `id`, whatever it was.
    pub fn set_entry(&mut self, id: &str, score: i64, display: &str)
        ensures
            final(self).best(id@) == Some((score, display@)),
            forall|other: Seq<char>| other != id@ ==> final(self).best(other) == old(self).best(other),
    {
        let wanted = id.to_owned();
        let ghost before = self.entries@;
        assert(before == old(self).entries());
        proof {
            lemma_board_index_from(before, id@, 0);
        }
        let mut i: usize = 0;
        while i < self.entries.len()
            invariant
                wanted@ == id@,
                self.entries@ == before,
                before == old(self).entries(),
                i <= before.len(),
                board_index_from(before, id@, 0) == board_index_from(before, id@, i as int),
            decreases before.len() - i,
        {
            let same = self.entries[i].0 == wanted;
            if same {
                let key = self.entries[i].0.as_str().to_owned();
                assert(board_index_from(before, id@, i as int) == Some(i as int));
                self.entries.set(i, (key, HighScoreEntry { score, display: display.to_owned() }));
                proof {
                    assert forall|q: Seq<char>|
                        board_index_from(self.entries@, q, 0) == board_index_from(before, q, 0) by {
                        lemma_board_same_keys(self.entries@, before, q, 0);
                    }
                    assert forall|q: Seq<char>| q != id@ implies best_of(self.entries@, q)
                        == best_of(before, q) by {
                        lemma_board_index_from(before, q, 0);
                    }
                    assert(board_index_from(self.entries@, id@, 0) == Some(i as int));
                }
                return;
            }
            i = i + 1;
        }
        let e = (wanted, HighScoreEntry { score, display: display.to_owned() });
        self.entries.push(e);
        proof {
            lemma_board_push(before, e, id@, 0);
            assert forall|q: Seq<char>| q != id@ implies best_of(self.entries@, q) == best_of(before, q) by {
                lemma_board_push(before, e, q, 0);
                lemma_board_index_from(before, q, 0);
            }
        }
    }

    /// Load the score store's `text`: each line that records a score sets
    /// its leaderboard's entry, later lines winning.
    pub fn load_records(&mut self, text: &str)
        ensures
            forall|id: Seq<char>|
                final(self).best(id) == loaded_best(lines_of(text@), lines_of(text@).len() as int, id, old(self).best(id)),
    {
        let ls = lines(text);
        let ghost lv = str_views(ls@);
        let mut i: usize = 0;
        while i < ls.len()
            invariant
                lv == str_views(ls@),
                lv == lines_of(text@),
                i <= ls@.len(),
                forall|id: Seq<char>| self.best(id) == loaded_best(lv, i as int, id, old(self).best(id)),
            decreases ls@.len() - i,
        {
            assert(lv[i as int] == ls@[i as int]@);
            match read_score_record(ls[i]) {
                Some((board, score, display)) => {
                    self.set_entry(board.as_str(), score, display.as_str());
                },
                None => {},
            }
            i = i + 1;
        }
    }
}

// MARK: - The offline configuration

/// An achievement as the offline configuration defines it.
#[derive(Clone, Debug)]
pub struct AchDef {
    pub title: String,
    pub description: String,
    pub gamerscore: u32,
    pub position: u32,
}

/// The text inside a block's first `<tag>...</tag>`, trimmed, or nothing.
pub open spec fn tag_or_empty(block: Seq<char>, tag: Seq<char>) -> Seq<char> {
    match tag_text_of(block, tag) {
        Some(t) => t,
        None => Seq::empty(),
    }
}

/// What `str::parse::<u32>` gives, or 0 where it fails.
pub open spec fn u32_or_zero(s: Seq<char>) -> u32 {
    match parsed_u64(s) {
        Some(v) => if v <= u32::MAX {
            v as u32
        } else {
            0
        },
        None => 0,
    }
}

/// The definition an `<achievement>` block gives, by its id, where it has
/// both an id and a title.
pub open spec fn definition_in(block: Seq<char>) -> Option<(Seq<char>, (Seq<char>, Seq<char>, u32, u32))> {
    let id = tag_or_empty(block, "id"@);
    let title = tag_or_empty(block, "title"@);
    if id.len() == 0 || title.len() == 0 {
        None
    } else {
        Some(
            (
                id,
                (
                    title,
                    tag_or_empty(block, "description"@),
                    u32_or_zero(tag_or_empty(block, "gamerscore"@)),
                    u32_or_zero(tag_or_empty(block, "position"@)),
                ),
            ),
        )
    }
}

/// The definitions the blocks give, in order.
pub open spec fn definitions_in(blocks: Seq<Seq<char>>) -> Seq<(Seq<char>, (Seq<char>, Seq<char>, u32, u32))>
    decreases blocks.len(),
{
    if blocks.len() == 0 {
        Seq::empty()
    } else {
        match definition_in(blocks.last()) {
            Some(d) => definitions_in(blocks.drop_last()).push(d),
            None => definitions_in(blocks.drop_last()),
        }
    }
}

/// The view of a definition.
pub open spec fn def_view(d: (String, AchDef)) -> (Seq<char>, (Seq<char>, Seq<char>, u32, u32)) {
    (d.0@, (d.1.title@, d.1.description@, d.1.gamerscore, d.1.position))
}

/// The leaderboard an `<leaderboard>` block names, where it has both an id
/// and a name.
pub open spec fn board_in(block: Seq<char>) -> Option<(Seq<char>, Seq<char>)> {
    let id = tag_or_empty(block, "id"@);
    let name = tag_or_empty(block, "name"@);
    if id.len() == 0 || name.len() == 0 {
        None
    } else {
        Some((id, name))
    }
}

/// The leaderboards the blocks name, in order.
pub open spec fn boards_in(blocks: Seq<Seq<char>>) -> Seq<(Seq<char>, Seq<char>)>
    decreases blocks.len(),
{
    if blocks.len() == 0 {
        Seq::empty()
    } else {
        match board_in(blocks.last()) {
            Some(b) => boards_in(blocks.drop_last()).push(b),
            None => boards_in(blocks.drop_last()),
        }
    }
}

fn text_or_empty<'a>(block: &'a str, tag: &str) -> (r: &'a str)
    ensures
        r@ == tag_or_empty(block@, tag@),
{
    match tag_text(block, tag) {
        Some(t) => t,
        None => {
            proof {
                reveal_strlit("");
            }
            ""
        },
    }
}

fn u32_or_zero_of(s: &str) -> (r: u32)
    ensures
        r == u32_or_zero(s@),
{
    match parse_u64(s) {
        Some(v) => if v <= u32::MAX as u64 {
            v as u32
        } else {
            0
        },
        None => 0,
    }
}

/// The achievement definitions of an `openfeint_offline_config.xml`, in
/// document order; where two share an id, the later one is the one that
/// counts (see [definition]).
pub fn offline_achievements(xml: &str) -> (r: Vec<(String, AchDef)>)
    ensures
        r@.map_values(|d: (String, AchDef)| def_view(d)) == definitions_in(
            blocks_from(xml@, opening("achievement"@), closing("achievement"@), 0),
        ),
{
    let blocks = element_blocks(xml, "achievement");
    let ghost bv = str_views(blocks@);
    let mut r: Vec<(String, AchDef)> = Vec::new();
    let mut i: usize = 0;
    while i < blocks.len()
        invariant
            bv == str_views(blocks@),
            i <= blocks@.len(),
            r@.map_values(|d: (String, AchDef)| def_view(d)) == definitions_in(bv.take(i as int)),
        decreases blocks@.len() - i,
    {
        let block = blocks[i];
        assert(bv.take(i + 1).drop_last() =~= bv.take(i as int));
        assert(bv.take(i + 1).last() == block@);
        let ghost before = r@.map_values(|d: (String, AchDef)| def_view(d));
        let id = text_or_empty(block, "id");
        let title = text_or_empty(block, "title");
        if !id.is_empty() && !title.is_empty() {
            let def = AchDef {
                title: title.to_owned(),
                description: text_or_empty(block, "description").to_owned(),
                gamerscore: u32_or_zero_of(text_or_empty(block, "gamerscore")),
                position: u32_or_zero_of(text_or_empty(block, "position")),
            };
            let d = (id.to_owned(), def);
            r.push(d);
            assert(r@.map_values(|d: (String, AchDef)| def_view(d)) =~= before.push(def_view(d)));
        }
        i = i + 1;
    }
    assert(bv.take(i as int) =~= bv);
    r
}

/// The leaderboards of an `openfeint_offline_config.xml`, by id and name,
/// in document order.
pub fn offline_leaderboards(xml: &str) -> (r: Vec<(String, String)>)
    ensures
        r@.map_values(|b: (String, String)| (b.0@, b.1@)) == boards_in(
            blocks_from(xml@, opening("leaderboard"@), closing("leaderboard"@), 0),
        ),
{
    let blocks = element_blocks(xml, "leaderboard");
    let ghost bv = str_views(blocks@);
    let mut r: Vec<(String, String)> = Vec::new();
    let mut i: usize = 0;
    while i < blocks.len()
        invariant
            bv == str_views(blocks@),
            i <= blocks@.len(),
            r@.map_values(|b: (String, String)| (b.0@, b.1@)) == boards_in(bv.take(i as int)),
        decreases blocks@.len() - i,
    {
        let block = blocks[i];
        assert(bv.take(i + 1).drop_last() =~= bv.take(i as int));
        assert(bv.take(i + 1).last() == block@);
        let ghost before = r@.map_values(|b: (String, String)| (b.0@, b.1@));
        let id = text_or_empty(block, "id");
        let name = text_or_empty(block, "name");
        if !id.is_empty() && !name.is_empty() {
            r.push((id.to_owned(), name.to_owned()));
            assert(r@.map_values(|b: (String, String)| (b.0@, b.1@)) =~= before.push((id@, name@)));
        }
        i = i + 1;
    }
    assert(bv.take(i as int) =~= bv);
    r
}

/// The position of the last definition of `id` among the first `n`.
pub open spec fn last_definition(defs: Seq<(String, AchDef)>, id: Seq<char>, n: int) -> Option<int>
    decreases n,
{
    if n <= 0 {
        None
    } else if defs[n - 1].0@ == id {
        Some(n - 1)
    } else {
        last_definition(defs, id, n - 1)
    }
}

/// The definition of the achievement `id`: the last one given for it.
pub fn definition<'a>(defs: &'a [(String, AchDef)], id: &str) -> (r: Option<&'a AchDef>)
    ensures
        match last_definition(defs@, id@, defs@.len() as int) {
            Some(k) => r == Some(&defs@[k].1),
            None => r is None,
        },
{
    let wanted = id.to_owned();
    let mut i = defs.len();
    while i > 0
        invariant
            wanted@ == id@,
            i <= defs@.len(),
            last_definition(defs@, id@, defs@.len() as int) == last_definition(defs@, id@, i as int),
        decreases i,
    {
        let same = defs[i - 1].0 == wanted;
        if same {
            return Some(&defs[i - 1].1);
        }
        i = i - 1;
    }
    None
}

// MARK: - Dashboard text

/// The leaderboards page: each leaderboard's name and its local best score,
/// 0 where there is none, or a note that there are no leaderboards.
pub open spec fn leaderboards_page(boards: Seq<(Seq<char>, Seq<char>)>, best: spec_fn(Seq<char>) -> int) -> Seq<char> {
    if boards.len() == 0 {
        "No leaderboards available."@
    } else {
        leaderboard_lines(boards, best, boards.len() as int)
    }
}

/// The text of the first `n` leaderboards.
pub open spec fn leaderboard_lines(boards: Seq<(Seq<char>, Seq<char>)>, best: spec_fn(Seq<char>) -> int, n: int) -> Seq<char>
    decreases n,
{
    if n <= 0 {
        Seq::empty()
    } else {
        leaderboard_lines(boards, best, n - 1) + boards[n - 1].1 + "\nBest: "@ + signed_decimal(
            best(boards[n - 1].0),
        ) + "\n\n"@
    }
}

/// A leaderboard's local best score, 0 where there is none.
pub open spec fn best_or_zero(scores: HighScores) -> spec_fn(Seq<char>) -> int {
    |id: Seq<char>| match scores.best(id) {
        Some((v, _)) => v as int,
        None => 0,
    }
}

/// The text of the dashboard's leaderboards page.
pub fn dashboard_leaderboards_text(boards: &[(String, String)], scores: &HighScores) -> (r: String)
    ensures
        r@ == leaderboards_page(boards@.map_values(|b: (String, String)| (b.0@, b.1@)), best_or_zero(*scores)),
{
    let ghost bv = boards@.map_values(|b: (String, String)| (b.0@, b.1@));
    if boards.len() == 0 {
        return "No leaderboards available.".to_owned();
    }
    let mut text = String::new();
    let mut i: usize = 0;
    while i < boards.len()
        invariant
            bv == boards@.map_values(|b: (String, String)| (b.0@, b.1@)),
            i <= boards@.len(),
            text@ == leaderboard_lines(bv, best_or_zero(*scores), i as int),
        decreases boards@.len() - i,
    {
        let best = match scores.best_score(boards[i].0.as_str()) {
            Some((v, _)) => v,
            None => 0,
        };
        assert(bv[i as int] == (boards@[i as int].0@, boards@[i as int].1@));
        assert(best as int == best_or_zero(*scores)(bv[i as int].0));
        text.append(boards[i].1.as_str());
        text.append("\nBest: ");
        text.append(signed_decimal_string(best).as_str());
        text.append("\n\n");
        i = i + 1;
    }
    text
}


// MARK: - The achievements page

/// An achievement definition as the achievements page orders them: its
/// position, title, description and gamerscore.
pub open spec fn def_key(d: AchDef) -> (u32, Seq<char>, Seq<char>, u32) {
    (d.position, d.title@, d.description@, d.gamerscore)
}

/// Whether `a` comes before `b` in the order of `String`'s `Ord`: the first
/// character that differs decides, and a proper prefix comes first.
pub open spec fn chars_lt(a: Seq<char>, b: Seq<char>) -> bool
    decreases a.len(),
{
    if a.len() == 0 {
        b.len() > 0
    } else if b.len() == 0 {
        false
    } else if a[0] != b[0] {
        a[0] < b[0]
    } else {
        chars_lt(a.drop_first(), b.drop_first())
    }
}

/// Whether key `x` comes before key `y`: by position, then title, then
/// description, then gamerscore.
pub open spec fn key_lt(x: (u32, Seq<char>, Seq<char>, u32), y: (u32, Seq<char>, Seq<char>, u32)) -> bool {
    ||| x.0 < y.0
    ||| x.0 == y.0 && chars_lt(x.1, y.1)
    ||| x.0 == y.0 && x.1 == y.1 && chars_lt(x.2, y.2)
    ||| x.0 == y.0 && x.1 == y.1 && x.2 == y.2 && x.3 < y.3
}

/// Whether the keys are in order.
pub open spec fn keys_sorted(s: Seq<(u32, Seq<char>, Seq<char>, u32)>) -> bool {
    forall|i: int, j: int| 0 <= i < j < s.len() ==> !key_lt(#[trigger] s[j], #[trigger] s[i])
}

/// The position of the first key from `i` on that comes after `x`.
pub open spec fn first_after(s: Seq<(u32, Seq<char>, Seq<char>, u32)>, x: (u32, Seq<char>, Seq<char>, u32), i: int) -> int
    decreases s.len() - i,
{
    if i >= s.len() || i < 0 {
        s.len() as int
    } else if key_lt(x, s[i]) {
        i
    } else {
        first_after(s, x, i + 1)
    }
}

/// The keys in order: each inserted before the first that comes after it.
pub open spec fn sort_keys(d: Seq<(u32, Seq<char>, Seq<char>, u32)>) -> Seq<(u32, Seq<char>, Seq<char>, u32)>
    decreases d.len(),
{
    if d.len() == 0 {
        Seq::empty()
    } else {
        let s = sort_keys(d.drop_last());
        s.insert(first_after(s, d.last(), 0), d.last())
    }
}

/// The order of titles is `String`'s: a proper prefix comes first (so the
/// empty string is least), and otherwise the first character that differs
/// decides, by its code point.
pub proof fn lemma_chars_lt_is_string_order(a: Seq<char>, b: Seq<char>)
    ensures
        a.len() < b.len() && b.take(a.len() as int) == a ==> chars_lt(a, b) && !chars_lt(b, a),
        forall|i: int|
            #![trigger a[i], b[i]]
            0 <= i < a.len() && i < b.len() && a.take(i) == b.take(i) && a[i] != b[i] ==> (chars_lt(
                a,
                b,
            ) <==> (a[i] as int) < (b[i] as int)),
        !chars_lt(a, Seq::empty()),
        b.len() > 0 ==> chars_lt(Seq::empty(), b),
    decreases a.len(),
{
    if a.len() > 0 && b.len() > 0 {
        lemma_chars_lt_is_string_order(a.drop_first(), b.drop_first());
        if a.len() < b.len() && b.take(a.len() as int) == a {
            assert(a[0] == b.take(a.len() as int)[0]);
            assert(b.drop_first().take(a.drop_first().len() as int) =~= a.drop_first());
        }
        assert forall|i: int|
            #![trigger a[i], b[i]]
            0 <= i < a.len() && i < b.len() && a.take(i) == b.take(i) && a[i] != b[i] implies (chars_lt(
                a,
                b,
            ) <==> (a[i] as int) < (b[i] as int)) by {
            if i > 0 {
                assert(a[0] == a.take(i)[0]);
                assert(b[0] == b.take(i)[0]);
                assert(a.drop_first().take(i - 1) =~= a.take(i).drop_first());
                assert(b.drop_first().take(i - 1) =~= b.take(i).drop_first());
                assert(a.drop_first()[i - 1] == a[i]);
                assert(b.drop_first()[i - 1] == b[i]);
            }
        }
    }
}

/// A title that is a proper prefix of another puts its achievement first
/// among achievements of the same position.
pub proof fn lemma_prefix_title_first(x: (u32, Seq<char>, Seq<char>, u32), y: (u32, Seq<char>, Seq<char>, u32))
    requires
        x.0 == y.0,
        x.1.len() < y.1.len(),
        y.1.take(x.1.len() as int) == x.1,
    ensures
        key_lt(x, y),
        !key_lt(y, x),
{
    lemma_chars_lt_is_string_order(x.1, y.1);
    assert(x.1 != y.1);
}

proof fn lemma_chars_lt_irreflexive(a: Seq<char>)
    ensures
        !chars_lt(a, a),
    decreases a.len(),
{
    if a.len() > 0 {
        lemma_chars_lt_irreflexive(a.drop_first());
    }
}

proof fn lemma_chars_lt_trichotomy(a: Seq<char>, b: Seq<char>)
    ensures
        a == b || chars_lt(a, b) || chars_lt(b, a),
        !(chars_lt(a, b) && chars_lt(b, a)),
    decreases a.len(),
{
    if a.len() > 0 && b.len() > 0 {
        lemma_chars_lt_trichotomy(a.drop_first(), b.drop_first());
        if a[0] == b[0] && a.drop_first() == b.drop_first() {
            assert(a =~= seq![a[0]] + a.drop_first());
            assert(b =~= seq![b[0]] + b.drop_first());
        }
    } else if a.len() == 0 && b.len() == 0 {
        assert(a =~= b);
    }
}

proof fn lemma_chars_lt_transitive(a: Seq<char>, b: Seq<char>, c: Seq<char>)
    requires
        chars_lt(a, b),
        chars_lt(b, c),
    ensures
        chars_lt(a, c),
    decreases a.len(),
{
    if a.len() > 0 && b.len() > 0 && c.len() > 0 && a[0] == b[0] && b[0] == c[0] {
        lemma_chars_lt_transitive(a.drop_first(), b.drop_first(), c.drop_first());
    }
}

/// The order of keys is strict and total.
proof fn lemma_key_order(x: (u32, Seq<char>, Seq<char>, u32), y: (u32, Seq<char>, Seq<char>, u32), z: (u32, Seq<char>, Seq<char>, u32))
    ensures
        !key_lt(x, x),
        x == y || key_lt(x, y) || key_lt(y, x),
        key_lt(x, y) && key_lt(y, z) ==> key_lt(x, z),
{
    lemma_chars_lt_irreflexive(x.1);
    lemma_chars_lt_irreflexive(x.2);
    lemma_chars_lt_trichotomy(x.1, y.1);
    lemma_chars_lt_trichotomy(x.2, y.2);
    lemma_chars_lt_trichotomy(y.1, z.1);
    lemma_chars_lt_trichotomy(y.2, z.2);
    lemma_chars_lt_trichotomy(x.1, z.1);
    lemma_chars_lt_trichotomy(x.2, z.2);
    if chars_lt(x.1, y.1) && chars_lt(y.1, z.1) {
        lemma_chars_lt_transitive(x.1, y.1, z.1);
    }
    if chars_lt(x.2, y.2) && chars_lt(y.2, z.2) {
        lemma_chars_lt_transitive(x.2, y.2, z.2);
    }
}

proof fn lemma_first_after(s: Seq<(u32, Seq<char>, Seq<char>, u32)>, x: (u32, Seq<char>, Seq<char>, u32), i: int)
    requires
        0 <= i <= s.len(),
    ensures
        i <= first_after(s, x, i) <= s.len(),
        forall|k: int| i <= k < first_after(s, x, i) ==> !key_lt(x, #[trigger] s[k]),
        first_after(s, x, i) < s.len() ==> key_lt(x, s[first_after(s, x, i)]),
    decreases s.len() - i,
{
    if i < s.len() && !key_lt(x, s[i]) {
        lemma_first_after(s, x, i + 1);
    }
}

/// The achievement keys come out in order, and they are the keys that went
/// in, each as often.
pub proof fn lemma_sort_keys(d: Seq<(u32, Seq<char>, Seq<char>, u32)>)
    ensures
        keys_sorted(sort_keys(d)),
        sort_keys(d).to_multiset() == d.to_multiset(),
        sort_keys(d).len() == d.len(),
    decreases d.len(),
{
    broadcast use vstd::seq_lib::to_multiset_build, vstd::seq_lib::to_multiset_insert;

    if d.len() == 0 {
        assert(sort_keys(d) =~= d);
    } else {
        let s = sort_keys(d.drop_last());
        let x = d.last();
        lemma_sort_keys(d.drop_last());
        lemma_first_after(s, x, 0);
        let p = first_after(s, x, 0);
        let r = s.insert(p, x);
        assert(d =~= d.drop_last().push(x));
        assert forall|i: int, j: int| 0 <= i < j < r.len() implies !key_lt(#[trigger] r[j], #[trigger] r[i]) by {
            if j < p {
                assert(r[i] == s[i] && r[j] == s[j]);
            } else if j == p {
                assert(r[i] == s[i]);
                assert(!key_lt(x, s[i]));
            } else if i == p {
                assert(r[j] == s[j - 1]);
                if p < s.len() {
                    lemma_key_order(x, s[p], s[j - 1]);
                    lemma_key_order(s[j - 1], s[p], x);
                    lemma_key_order(s[j - 1], x, s[p]);
                    if j - 1 > p {
                        assert(!key_lt(s[j - 1], s[p]));
                    }
                    lemma_key_order(s[p], s[j - 1], s[j - 1]);
                    lemma_key_order(s[j - 1], s[p], s[p]);
                }
            } else if i < p {
                assert(r[i] == s[i] && r[j] == s[j - 1]);
            } else {
                assert(r[i] == s[i - 1] && r[j] == s[j - 1]);
            }
        }
    }
}

/// The line of a definition on the achievements page.
pub open spec fn achievement_line(k: (u32, Seq<char>, Seq<char>, u32)) -> Seq<char> {
    seq!['\u{25A1}', ' '] + k.1 + " ("@ + decimal(k.3 as nat) + "G)\n"@ + k.2 + "\n\n"@
}

/// The lines of the first `n` keys.
pub open spec fn achievement_lines(s: Seq<(u32, Seq<char>, Seq<char>, u32)>, n: int) -> Seq<char>
    decreases n,
{
    if n <= 0 {
        Seq::empty()
    } else {
        achievement_lines(s, n - 1) + achievement_line(s[n - 1])
    }
}

/// The text of the dashboard's achievements page, from the definitions of
/// the offline configuration, the number of achievements unlocked, and the
/// number total: without definitions, a summary of progress; with them, a
/// count of those unlocked over the definitions, then every definition in
/// order.
pub open spec fn achievements_page(defs: Seq<(u32, Seq<char>, Seq<char>, u32)>, unlocked: nat, total: nat) -> Seq<char> {
    if defs.len() == 0 {
        if total == 0 {
            "No achievements unlocked yet.\nAchievements unlock during gameplay."@
        } else {
            decimal(unlocked) + "/"@ + decimal(total) + " achievements unlocked.\nKeep playing to unlock the rest!"@
        }
    } else {
        seq!['\u{2713}', ' '] + decimal(unlocked) + "/"@ + decimal(defs.len()) + " unlocked\n\n"@
            + achievement_lines(sort_keys(defs), defs.len() as int)
    }
}

/// Whether `a` comes before `b` as `String`s are ordered.
fn str_less(a: &str, b: &str) -> (r: bool)
    ensures
        r == chars_lt(a@, b@),
{
    let x = chars_of(a);
    let y = chars_of(b);
    let mut i: usize = 0;
    assert(a@.skip(0) =~= a@);
    assert(b@.skip(0) =~= b@);
    while i < x.len() && i < y.len() && x[i] == y[i]
        invariant
            x@ == a@,
            y@ == b@,
            i <= x@.len(),
            i <= y@.len(),
            chars_lt(a@, b@) == chars_lt(a@.skip(i as int), b@.skip(i as int)),
        decreases x@.len() - i,
    {
        assert(a@.skip(i as int).drop_first() =~= a@.skip(i + 1));
        assert(b@.skip(i as int).drop_first() =~= b@.skip(i + 1));
        i = i + 1;
    }
    if i == x.len() {
        assert(a@.skip(i as int).len() == 0);
        i < y.len()
    } else if i == y.len() {
        assert(b@.skip(i as int).len() == 0);
        assert(a@.skip(i as int).len() > 0);
        false
    } else {
        assert(x@[i as int] != y@[i as int]);
        assert(a@.skip(i as int)[0] == x@[i as int]);
        assert(b@.skip(i as int)[0] == y@[i as int]);
        x[i] < y[i]
    }
}

/// A definition's key, owned.
pub open spec fn key_view(k: (u32, String, String, u32)) -> (u32, Seq<char>, Seq<char>, u32) {
    (k.0, k.1@, k.2@, k.3)
}

/// Whether key `x` comes before key `y`.
fn key_less(x: &(u32, String, String, u32), y: &(u32, String, String, u32)) -> (r: bool)
    ensures
        r == key_lt(key_view(*x), key_view(*y)),
{
    if x.0 != y.0 {
        return x.0 < y.0;
    }
    if str_less(x.1.as_str(), y.1.as_str()) {
        return true;
    }
    if !str_eq(x.1.as_str(), y.1.as_str()) {
        return false;
    }
    if str_less(x.2.as_str(), y.2.as_str()) {
        return true;
    }
    if !str_eq(x.2.as_str(), y.2.as_str()) {
        return false;
    }
    x.3 < y.3
}

/// The text of the dashboard's achievements page: the definitions of the
/// offline configuration, `unlocked` achievements unlocked of `total`
/// total.
pub fn dashboard_achievements_text(defs: &[(String, AchDef)], unlocked: usize, total: usize) -> (r: String)
    ensures
        r@ == achievements_page(
            defs@.map_values(|d: (String, AchDef)| def_key(d.1)),
            unlocked as nat,
            total as nat,
        ),
{
    let ghost dk = defs@.map_values(|d: (String, AchDef)| def_key(d.1));
    if defs.len() == 0 {
        if total == 0 {
            return "No achievements unlocked yet.\nAchievements unlock during gameplay.".to_owned();
        }
        return decimal_string(unlocked as u64).concat("/").concat(decimal_string(total as u64).as_str()).concat(
            " achievements unlocked.\nKeep playing to unlock the rest!",
        );
    }
    let mut keys: Vec<(u32, String, String, u32)> = Vec::new();
    let mut i: usize = 0;
    while i < defs.len()
        invariant
            i <= defs@.len(),
            dk == defs@.map_values(|d: (String, AchDef)| def_key(d.1)),
            keys@.map_values(|k: (u32, String, String, u32)| key_view(k)) == sort_keys(dk.take(i as int)),
        decreases defs@.len() - i,
    {
        let d = &defs[i].1;
        let key = (d.position, owned(d.title.as_str()), owned(d.description.as_str()), d.gamerscore);
        let ghost kv = keys@.map_values(|k: (u32, String, String, u32)| key_view(k));
        assert(key_view(key) == dk[i as int]);
        let mut p: usize = 0;
        while p < keys.len() && !key_less(&key, &keys[p])
            invariant
                p <= keys@.len(),
                kv == keys@.map_values(|k: (u32, String, String, u32)| key_view(k)),
                first_after(kv, key_view(key), 0) == first_after(kv, key_view(key), p as int),
            decreases keys@.len() - p,
        {
            p = p + 1;
        }
        keys.insert(p, key);
        proof {
            assert(dk.take(i + 1).drop_last() =~= dk.take(i as int));
            assert(dk.take(i + 1).last() == key_view(key));
            assert(first_after(kv, key_view(key), 0) == p as int);
            assert(keys@.map_values(|k: (u32, String, String, u32)| key_view(k)) =~= kv.insert(p as int, key_view(key)));
        }
        i = i + 1;
    }
    assert(dk.take(i as int) =~= dk);
    let ghost sk = sort_keys(dk);
    proof {
        lemma_sort_keys(dk);
    }
    let mut text = String::new();
    push_char(&mut text, '\u{2713}');
    push_char(&mut text, ' ');
    text.append(decimal_string(unlocked as u64).as_str());
    text.append("/");
    text.append(decimal_string(defs.len() as u64).as_str());
    text.append(" unlocked\n\n");
    let ghost header = text@;
    let mut j: usize = 0;
    while j < keys.len()
        invariant
            j <= keys@.len(),
            keys@.len() == dk.len(),
            sk == keys@.map_values(|k: (u32, String, String, u32)| key_view(k)),
            text@ == header + achievement_lines(sk, j as int),
        decreases keys@.len() - j,
    {
        let k = &keys[j];
        assert(key_view(*k) == sk[j as int]);
        push_char(&mut text, '\u{25A1}');
        push_char(&mut text, ' ');
        text.append(k.1.as_str());
        text.append(" (");
        text.append(decimal_string(k.3 as u64).as_str());
        text.append("G)\n");
        text.append(k.2.as_str());
        text.append("\n\n");
        j = j + 1;
    }
    text
}
} // verus!
