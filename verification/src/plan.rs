//! The deletion plan: which files are kept, and which are duplicates of a kept file.
//!
//! Files that share size and hash are taken in the order of the keep rule. The first is
//! kept. Each further one is compared, byte by byte, with the kept ones of its group, in
//! turn: it is a duplicate of the first that it equals, and kept where it equals none. The
//! comparison reads files, so it is asked of the caller, one pair at a time.
use vstd::prelude::*;
use vstd::string::*;

use crate::model::{records, FileInfo, FineTimes, KeepRule, KeepRuleRecord, Platform};
use crate::order::{is_sorting, law_there_is_one_sorting, lemma_sorting_keeps};
use crate::rank::{
    is_preferred, keep_leq, law_preferred_paths_start_in_the_folder, lemma_content_key_chain,
    lemma_content_key_order, lemma_path_order_total, lemma_plan_order_total, path_order, plan_order,
    same_content_key, sort_by_path, sort_for_plan, starts_in,
};
use crate::select::{
    ascending, lemma_ascending, lemma_ascending_congruent, lemma_ascending_parts,
};
use crate::text::text_lt;

verus! {

/// Whether a file has been hashed.
pub open spec fn is_hashed(file: FileInfo) -> bool {
    file.xxhash@.len() > 0
}

/// The indices of the hashed files.
pub open spec fn hashed_indices(files: Seq<FileInfo>) -> Seq<usize> {
    ascending(files.len(), |i: int| is_hashed(files[i]))
}

/// What the comparisons of files came to: for `(a, b)`, whether file `a` was found to
/// equal file `b`.
pub type Answers = Map<(usize, usize), bool>;

/// Whether `a` was compared with `b` and found equal.
pub open spec fn found_equal(answers: Answers, a: usize, b: usize) -> bool {
    answers.dom().contains((a, b)) && answers[(a, b)]
}

/// Whether `a` was compared with `b` and not found equal.
pub open spec fn found_different(answers: Answers, a: usize, b: usize) -> bool {
    answers.dom().contains((a, b)) && !answers[(a, b)]
}

/// Whether the file at position `r` of `order` is kept and has the content key of the
/// file at position `q`.
pub open spec fn leads(
    files: Seq<FileInfo>,
    order: Seq<usize>,
    home: Seq<usize>,
    r: int,
    q: int,
) -> bool {
    home[order[r] as int] == order[r] && same_content_key(
        files[order[r] as int],
        files[order[q] as int],
    )
}

/// Whether the file at position `q` of `order` equals the kept file at position `r`, and
/// no kept one of its group before that.
pub open spec fn joins(
    files: Seq<FileInfo>,
    order: Seq<usize>,
    home: Seq<usize>,
    answers: Answers,
    q: int,
    r: int,
) -> bool {
    &&& 0 <= r < q
    &&& leads(files, order, home, r, q)
    &&& home[order[q] as int] == order[r]
    &&& found_equal(answers, order[q], order[r])
    &&& forall|s: int| #![trigger order[s]]
        0 <= s < r && leads(files, order, home, s, q) ==> found_different(
            answers,
            order[q],
            order[s],
        )
}

/// Whether the file at position `q` of `order` differs from every kept one of its group
/// before it.
pub open spec fn stands_alone(
    files: Seq<FileInfo>,
    order: Seq<usize>,
    home: Seq<usize>,
    answers: Answers,
    q: int,
) -> bool {
    &&& home[order[q] as int] == order[q]
    &&& forall|s: int| #![trigger order[s]]
        0 <= s < q && leads(files, order, home, s, q) ==> found_different(
            answers,
            order[q],
            order[s],
        )
}

/// Whether the file at position `q` of `order` has been given its home: the kept file
/// that it is a duplicate of, or itself where it is kept.
pub open spec fn settled(
    files: Seq<FileInfo>,
    order: Seq<usize>,
    home: Seq<usize>,
    answers: Answers,
    q: int,
) -> bool {
    stands_alone(files, order, home, answers, q) || exists|r: int|
        joins(files, order, home, answers, q, r)
}

/// Whether `home` is the outcome of the comparisons `answers`, where the files are taken
/// in the order `order`: unhashed files are kept, and hashed ones are settled.
pub open spec fn is_assignment(
    files: Seq<FileInfo>,
    order: Seq<usize>,
    home: Seq<usize>,
    answers: Answers,
) -> bool {
    &&& home.len() == files.len()
    &&& forall|i: int| 0 <= i < files.len() && !is_hashed(files[i]) ==> #[trigger] home[i] == i
    &&& forall|q: int|
        #![trigger order[q]]
        0 <= q < order.len() ==> settled(files, order, home, answers, q)
}

/// The indices of the kept files: those that are their own home.
pub open spec fn kept_indices(home: Seq<usize>) -> Seq<usize> {
    ascending(home.len(), |i: int| home[i] == i)
}

/// The indices of the files planned for deletion: those whose home is another.
pub open spec fn doomed_indices(home: Seq<usize>) -> Seq<usize> {
    ascending(home.len(), |i: int| home[i] != i)
}

/// Whether some other file is a duplicate of file `h`.
pub open spec fn has_duplicate(home: Seq<usize>, h: int) -> bool {
    exists|i: int| 0 <= i < home.len() && i != h && #[trigger] home[i] == h
}

/// The kept files that have duplicates.
pub open spec fn duplicated_indices(home: Seq<usize>) -> Seq<usize> {
    ascending(home.len(), |h: int| has_duplicate(home, h))
}

/// A plan: the indices of the kept files and of those to delete, both by path, and how
/// many kept files have duplicates.
#[derive(Debug)]
pub struct DedupPlan {
    pub kept: Vec<usize>,
    pub planned_deletions: Vec<usize>,
    pub duplicate_sets: usize,
}

/// Whether `plan` is what the assignment `home` of duplicates to kept files comes to.
pub open spec fn is_plan(plan: DedupPlan, files: Seq<FileInfo>, home: Seq<usize>) -> bool {
    &&& is_sorting(plan.kept@, kept_indices(home), path_order(files))
    &&& is_sorting(plan.planned_deletions@, doomed_indices(home), path_order(files))
    &&& plan.duplicate_sets == duplicated_indices(home).len()
}

/// Makes the plan, one comparison at a time.
pub struct Planner {
    /// The files to plan for.
    pub files: Vec<FileInfo>,
    /// By how much their times are past the whole seconds.
    pub fine: Vec<FineTimes>,
    /// The hashed files, by content key and keep rule.
    pub order: Vec<usize>,
    /// How many of `order` are settled.
    pub position: usize,
    /// The positions in `order` of the kept files of the current group.
    pub leaders: Vec<usize>,
    /// How many of `leaders` the current file has been found to differ from.
    pub cursor: usize,
    /// The home of each file.
    pub home: Vec<usize>,
    /// The answers so far.
    pub answers: Ghost<Answers>,
}

impl Planner {
    /// Whether `leaders` are the kept files that the current file may be a duplicate of.
    pub open spec fn leaders_known(&self) -> bool {
        &&& forall|k: int|
            0 <= k < self.leaders@.len() ==> #[trigger] self.leaders@[k] < self.position && leads(
                self.files@,
                self.order@,
                self.home@,
                self.leaders@[k] as int,
                self.position as int,
            )
        &&& forall|j: int, k: int|
            0 <= j < k < self.leaders@.len() ==> self.leaders@[j] < self.leaders@[k]
        &&& forall|r: int|
            #![trigger self.order@[r]]
            0 <= r < self.position && leads(
                self.files@,
                self.order@,
                self.home@,
                r,
                self.position as int,
            ) ==> self.leaders@.contains(r as usize)
    }

    /// What holds between any two steps of the planning.
    pub open spec fn in_progress(&self, rule: KeepRuleRecord, platform: Platform) -> bool {
        &&& is_sorting(
            self.order@,
            hashed_indices(self.files@),
            plan_order(self.files@, self.fine@, rule, platform),
        )
        &&& self.fine@.len() == self.files@.len()
        &&& self.home@.len() == self.files@.len()
        &&& forall|i: int|
            0 <= i < self.files@.len() ==> #[trigger] self.home@[i] < self.files@.len()
        &&& forall|i: int|
            0 <= i < self.files@.len() && !is_hashed(self.files@[i]) ==> #[trigger] self.home@[i]
                == i
        &&& self.position <= self.order@.len()
        &&& forall|q: int|
            #![trigger self.order@[q]]
            0 <= q < self.position ==> settled(
                self.files@,
                self.order@,
                self.home@,
                self.answers@,
                q,
            )
        &&& forall|q: int|
            #![trigger self.order@[q]]
            self.position <= q < self.order@.len() ==> self.home@[self.order@[q] as int]
                == self.order@[q]
        &&& self.cursor <= self.leaders@.len()
        &&& self.position < self.order@.len() ==> self.leaders_known()
        &&& self.position < self.order@.len() ==> forall|k: int|
            0 <= k < self.cursor ==> found_different(
                self.answers@,
                self.order@[self.position as int],
                self.order@[#[trigger] self.leaders@[k] as int],
            )
    }

    /// The planning has come to a question or to its end.
    pub open spec fn wf(&self, rule: KeepRuleRecord, platform: Platform) -> bool {
        &&& self.in_progress(rule, platform)
        &&& self.position < self.order@.len() ==> self.cursor < self.leaders@.len()
    }

    /// The files to compare next.
    pub open spec fn question(&self) -> Option<(usize, usize)> {
        if self.position < self.order@.len() {
            Some(
                (
                    self.order@[self.position as int],
                    self.order@[self.leaders@[self.cursor as int] as int],
                ),
            )
        } else {
            None
        }
    }

    /// A question is about two of the files.
    pub(crate) proof fn lemma_question_in_range(&self, rule: KeepRuleRecord, platform: Platform)
        requires
            self.wf(rule, platform),
            self.files@.len() <= usize::MAX,
        ensures
            self.question() matches Some((a, b)) ==> a < self.files@.len() && b
                < self.files@.len(),
    {
        self.lemma_order(rule, platform);
        if self.position < self.order@.len() {
            let leader = self.leaders@[self.cursor as int];
            assert(leader < self.position);
            assert(self.order@[self.position as int] < self.files@.len());
            assert(self.order@[leader as int] < self.files@.len());
        }
    }

    proof fn lemma_order(&self, rule: KeepRuleRecord, platform: Platform)
        requires
            is_sorting(
                self.order@,
                hashed_indices(self.files@),
                plan_order(self.files@, self.fine@, rule, platform),
            ),
            self.files@.len() <= usize::MAX,
        ensures
            self.order@.no_duplicates(),
            self.order@.len() <= self.files@.len(),
            forall|q: int|
                0 <= q < self.order@.len() ==> #[trigger] self.order@[q] < self.files@.len()
                    && is_hashed(self.files@[self.order@[q] as int]),
            forall|i: usize|
                i < self.files@.len() && is_hashed(self.files@[i as int]) ==> #[trigger]
                self.order@.contains(i),
    {
        let hashed = |i: int| is_hashed(self.files@[i]);
        let items = hashed_indices(self.files@);
        lemma_ascending(self.files@.len(), hashed);
        lemma_sorting_keeps(self.order@, items, plan_order(self.files@, self.fine@, rule, platform));
        assert forall|q: int| 0 <= q < self.order@.len() implies #[trigger] self.order@[q]
            < self.files@.len() && is_hashed(self.files@[self.order@[q] as int]) by {
            assert(self.order@.contains(self.order@[q]));
            assert(items.contains(self.order@[q]));
        }
        assert forall|i: usize| i < self.files@.len() && is_hashed(self.files@[i as int]) implies
        #[trigger] self.order@.contains(i) by {
            assert(hashed(i as int));
            assert(items.contains(i));
        }
    }

    /// Between two files of one group in the order there are only files of that group.
    proof fn lemma_groups_are_runs(
        &self,
        rule: KeepRuleRecord,
        platform: Platform,
        a: int,
        b: int,
        c: int,
    )
        requires
            is_sorting(
                self.order@,
                hashed_indices(self.files@),
                plan_order(self.files@, self.fine@, rule, platform),
            ),
            0 <= a <= b <= c < self.order@.len(),
            same_content_key(
                self.files@[self.order@[a] as int],
                self.files@[self.order@[c] as int],
            ),
        ensures
            same_content_key(
                self.files@[self.order@[b] as int],
                self.files@[self.order@[c] as int],
            ),
    {
        let leq = plan_order(self.files@, self.fine@, rule, platform);
        let x = self.files@[self.order@[a] as int];
        let y = self.files@[self.order@[b] as int];
        let z = self.files@[self.order@[c] as int];
        if a < b && b < c {
            assert(leq(self.order@[a], self.order@[b]));
            assert(leq(self.order@[b], self.order@[c]));
            lemma_content_key_order(x, y);
            lemma_content_key_order(y, z);
            lemma_content_key_order(x, z);
            lemma_content_key_chain(x, y, z);
        }
    }

    /// Whether planning for `files` has just begun: nothing has been compared.
    pub open spec fn starts(
        &self,
        files: Seq<FileInfo>,
        fine: Seq<FineTimes>,
        rule: KeepRuleRecord,
        platform: Platform,
    ) -> bool {
        &&& self.wf(rule, platform)
        &&& self.files@ == files
        &&& self.fine@ == fine
        &&& self.answers@ == Map::<(usize, usize), bool>::empty()
        &&& forall|i: int| 0 <= i < files.len() ==> #[trigger] self.home@[i] == i
    }

    /// Whether this is `before` after the answer to its question.
    pub open spec fn takes(
        &self,
        before: Planner,
        identical: bool,
        rule: KeepRuleRecord,
        platform: Platform,
    ) -> bool {
        &&& self.wf(rule, platform)
        &&& self.files == before.files
        &&& self.fine == before.fine
        &&& self.order == before.order
        &&& self.answers@ == before.answers@.insert(before.question()->0, identical)
        &&& self.home@ == if identical {
            before.home@.update((before.question()->0).0 as int, (before.question()->0).1)
        } else {
            before.home@
        }
        &&& before.position <= self.position
        &&& self.position == before.position ==> self.cursor == before.cursor + 1
    }

    /// Starts planning for `files`.
    pub fn new(
        files: Vec<FileInfo>,
        fine: Vec<FineTimes>,
        rule: &KeepRule,
        platform: Platform,
    ) -> (r: Planner)
        requires
            fine@.len() == files@.len(),
        ensures
            r.starts(files@, fine@, rule@, platform),
            r.files == files,
    {
        let mut hashed: Vec<usize> = Vec::new();
        let mut home: Vec<usize> = Vec::new();
        let ghost want = |i: int| is_hashed(files@[i]);
        let n: usize = files.len();
        let mut i: usize = 0;
        while i < n
            invariant
                n == files@.len(),
                i <= n,
                want == (|i: int| is_hashed(files@[i])),
                hashed@ == ascending(i as nat, want),
                home@.len() == i,
                forall|k: int| 0 <= k < i ==> #[trigger] home@[k] == k,
            decreases n - i,
        {
            if !files[i].xxhash.as_str().is_empty() {
                hashed.push(i);
            }
            home.push(i);
            i = i + 1;
        }
        proof {
            lemma_ascending(n as nat, want);
        }
        let order = sort_for_plan(&files, &fine, &hashed, rule, platform);
        let mut planner = Planner {
            files,
            fine,
            order,
            position: 0,
            leaders: Vec::new(),
            cursor: 0,
            home,
            answers: Ghost(Map::empty()),
        };
        proof {
            planner.lemma_order(rule@, platform);
        }
        planner.settle(Ghost(rule@), Ghost(platform));
        planner
    }

    /// The next file comes up.
    fn next_file(&mut self, Ghost(rule): Ghost<KeepRuleRecord>, Ghost(platform): Ghost<Platform>)
        requires
            old(self).position < old(self).order@.len(),
            is_sorting(
                old(self).order@,
                hashed_indices(old(self).files@),
                plan_order(old(self).files@, old(self).fine@, rule, platform),
            ),
            old(self).fine@.len() == old(self).files@.len(),
            old(self).home@.len() == old(self).files@.len(),
            forall|i: int|
                0 <= i < old(self).files@.len() ==> #[trigger] old(self).home@[i] < old(
                    self,
                ).files@.len(),
            forall|i: int|
                0 <= i < old(self).files@.len() && !is_hashed(old(self).files@[i])
                    ==> #[trigger] old(self).home@[i] == i,
            forall|q: int|
                #![trigger old(self).order@[q]]
                0 <= q <= old(self).position ==> settled(
                    old(self).files@,
                    old(self).order@,
                    old(self).home@,
                    old(self).answers@,
                    q,
                ),
            forall|q: int|
                #![trigger old(self).order@[q]]
                old(self).position < q < old(self).order@.len() ==> old(self).home@[old(
                    self,
                ).order@[q] as int] == old(self).order@[q],
            forall|k: int|
                0 <= k < old(self).leaders@.len() ==> #[trigger] old(self).leaders@[k] <= old(
                    self,
                ).position && leads(
                    old(self).files@,
                    old(self).order@,
                    old(self).home@,
                    old(self).leaders@[k] as int,
                    old(self).position as int,
                ),
            forall|j: int, k: int|
                0 <= j < k < old(self).leaders@.len() ==> old(self).leaders@[j] < old(
                    self,
                ).leaders@[k],
            forall|r: int|
                #![trigger old(self).order@[r]]
                0 <= r <= old(self).position && leads(
                    old(self).files@,
                    old(self).order@,
                    old(self).home@,
                    r,
                    old(self).position as int,
                ) ==> old(self).leaders@.contains(r as usize),
        ensures
            final(self).in_progress(rule, platform),
            final(self).files == old(self).files,
            final(self).fine == old(self).fine,
            final(self).order == old(self).order,
            final(self).home == old(self).home,
            final(self).answers == old(self).answers,
            final(self).position == old(self).position + 1,
            final(self).cursor == 0,
    {
        let n: usize = self.files.len();
        proof {
            self.lemma_order(rule, platform);
        }
        self.position = self.position + 1;
        self.cursor = 0;
        if self.position < self.order.len() {
            let a = &self.files[self.order[self.position - 1]];
            let b = &self.files[self.order[self.position]];
            if a.file_size == b.file_size && a.xxhash == b.xxhash {
                assert(self.leaders_known());
            } else {
                proof {
                    assert forall|r: int|
                        #![trigger self.order@[r]]
                        0 <= r < self.position implies !leads(
                        self.files@,
                        self.order@,
                        self.home@,
                        r,
                        self.position as int,
                    ) by {
                        if leads(self.files@, self.order@, self.home@, r, self.position as int) {
                            self.lemma_groups_are_runs(
                                rule,
                                platform,
                                r,
                                self.position - 1,
                                self.position as int,
                            );
                        }
                    }
                }
                self.leaders.clear();
            }
        }
    }

    /// Keeps files that there is nothing left to compare with, up to the next question.
    fn settle(&mut self, Ghost(rule): Ghost<KeepRuleRecord>, Ghost(platform): Ghost<Platform>)
        requires
            old(self).in_progress(rule, platform),
        ensures
            final(self).wf(rule, platform),
            final(self).files == old(self).files,
            final(self).fine == old(self).fine,
            final(self).order == old(self).order,
            final(self).home == old(self).home,
            final(self).answers == old(self).answers,
            old(self).position <= final(self).position,
            final(self).position == old(self).position ==> *final(self) == *old(self),
    {
        while self.position < self.order.len() && self.cursor == self.leaders.len()
            invariant
                self.in_progress(rule, platform),
                self.files == old(self).files,
                self.fine == old(self).fine,
                self.order == old(self).order,
                self.home == old(self).home,
                self.answers == old(self).answers,
                old(self).position <= self.position,
                self.position == old(self).position ==> *self == *old(self),
            decreases self.order@.len() - self.position,
        {
            let n: usize = self.files.len();
            let ghost leaders = self.leaders@;
            proof {
                self.lemma_order(rule, platform);
                assert(stands_alone(
                    self.files@,
                    self.order@,
                    self.home@,
                    self.answers@,
                    self.position as int,
                )) by {
                    assert forall|s: int|
                        #![trigger self.order@[s]]
                        0 <= s < self.position && leads(
                            self.files@,
                            self.order@,
                            self.home@,
                            s,
                            self.position as int,
                        ) implies found_different(
                        self.answers@,
                        self.order@[self.position as int],
                        self.order@[s],
                    ) by {
                        assert(leaders.contains(s as usize));
                        let k = choose|k: int| 0 <= k < leaders.len() && leaders[k] == s;
                        assert(self.leaders@[k] == s);
                    }
                }
                assert(self.home@[self.order@[self.position as int] as int]
                    == self.order@[self.position as int]);
            }
            self.leaders.push(self.position);
            proof {
                assert forall|r: int|
                    #![trigger self.order@[r]]
                    0 <= r <= self.position && leads(
                        self.files@,
                        self.order@,
                        self.home@,
                        r,
                        self.position as int,
                    ) implies self.leaders@.contains(r as usize) by {
                    if r == self.position {
                        assert(self.leaders@[leaders.len() as int] == r);
                    } else {
                        assert(leaders.contains(r as usize));
                        let k = choose|k: int| 0 <= k < leaders.len() && leaders[k] == r;
                        assert(self.leaders@[k] == r);
                    }
                }
            }
            self.next_file(Ghost(rule), Ghost(platform));
        }
    }

    /// The files to compare next: the first is a duplicate of the second where they are
    /// equal. `None` when the plan is complete.
    pub fn pending(&self, rule: &KeepRule, platform: Platform) -> (r: Option<(usize, usize)>)
        requires
            self.wf(rule@, platform),
        ensures
            r == self.question(),
            r matches Some(pair) ==> pair.0 < self.files@.len() && pair.1 < self.files@.len(),
    {
        let n: usize = self.files.len();
        proof {
            self.lemma_order(rule@, platform);
        }
        if self.position < self.order.len() {
            let leader: usize = self.leaders[self.cursor];
            Some((self.order[self.position], self.order[leader]))
        } else {
            None
        }
    }

    /// Takes the answer to the pending question.
    pub fn answer(&mut self, identical: bool, rule: &KeepRule, platform: Platform)
        requires
            old(self).wf(rule@, platform),
            old(self).question() is Some,
        ensures
            final(self).takes(*old(self), identical, rule@, platform),
    {
        let n: usize = self.files.len();
        proof {
            self.lemma_order(rule@, platform);
        }
        let others: usize = self.leaders.len();
        let leader: usize = self.leaders[self.cursor];
        let file: usize = self.order[self.position];
        let kept: usize = self.order[leader];
        let ghost before = *self;
        let ghost p = self.position as int;
        self.answers = Ghost(self.answers@.insert((file, kept), identical));
        proof {
            assert forall|q: int|
                #![trigger self.order@[q]]
                0 <= q < p implies settled(
                self.files@,
                self.order@,
                self.home@,
                self.answers@,
                q,
            ) by {
                lemma_settled_kept(before, self.answers@, self.home@, q, file, kept, identical);
            }
        }
        if identical {
            self.home.set(file, kept);
            proof {
                let files = self.files@;
                let order = self.order@;
                let home = self.home@;
                let answers = self.answers@;
                assert forall|r: int| #![trigger order[r]] 0 <= r < p implies (leads(
                    files,
                    order,
                    home,
                    r,
                    p,
                ) <==> leads(files, order, before.home@, r, p)) by {}
                assert forall|q: int| #![trigger order[q]] 0 <= q < p implies settled(
                    files,
                    order,
                    home,
                    answers,
                    q,
                ) by {
                    lemma_settled_kept(before, answers, home, q, file, kept, identical);
                }
                assert forall|s: int|
                    #![trigger order[s]]
                    0 <= s < leader && leads(files, order, home, s, p) implies found_different(
                    answers,
                    file,
                    order[s],
                ) by {
                    assert(before.leaders@.contains(s as usize));
                    let k = choose|k: int|
                        0 <= k < before.leaders@.len() && before.leaders@[k] == s;
                    assert(before.leaders@[k] == s);
                    if k >= before.cursor {
                        assert(before.leaders@[before.cursor as int] == leader);
                        assert(k == before.cursor || before.leaders@[before.cursor as int]
                            < before.leaders@[k]);
                    }
                    assert(order[s] != kept);
                }
                assert(joins(files, order, home, answers, p, leader as int));
                assert forall|r: int|
                    #![trigger order[r]]
                    0 <= r <= p && leads(files, order, home, r, p) implies self.leaders@.contains(
                    r as usize,
                ) by {
                    assert(r < p);
                }
            }
            self.next_file(Ghost(rule@), Ghost(platform));
        } else {
            self.cursor = self.cursor + 1;
        }
        self.settle(Ghost(rule@), Ghost(platform));
    }

    /// The finished plan.
    pub fn plan(&self, rule: &KeepRule, platform: Platform) -> (r: DedupPlan)
        requires
            self.wf(rule@, platform),
            self.question() is None,
        ensures
            is_assignment(self.files@, self.order@, self.home@, self.answers@),
            is_plan(r, self.files@, self.home@),
    {
        let n: usize = self.files.len();
        let mut kept: Vec<usize> = Vec::new();
        let mut doomed: Vec<usize> = Vec::new();
        let mut flags: Vec<bool> = Vec::new();
        let ghost own = |i: int| self.home@[i] == i;
        let ghost other = |i: int| self.home@[i] != i;
        let mut i: usize = 0;
        while i < n
            invariant
                n == self.files@.len(),
                n == self.home@.len(),
                i <= n,
                own == (|i: int| self.home@[i] == i),
                other == (|i: int| self.home@[i] != i),
                kept@ == ascending(i as nat, own),
                doomed@ == ascending(i as nat, other),
                flags@.len() == i,
                forall|k: int| 0 <= k < i ==> #[trigger] flags@[k] == false,
            decreases n - i,
        {
            if self.home[i] == i {
                kept.push(i);
            } else {
                doomed.push(i);
            }
            flags.push(false);
            i = i + 1;
        }
        let mut j: usize = 0;
        while j < n
            invariant
                n == self.home@.len(),
                n == self.files@.len(),
                j <= n,
                flags@.len() == n,
                forall|i: int| 0 <= i < n ==> #[trigger] self.home@[i] < n,
                forall|h: int|
                    0 <= h < n ==> (#[trigger] flags@[h] <==> exists|i: int|
                        0 <= i < j && i != h && #[trigger] self.home@[i] == h),
            decreases n - j,
        {
            let h: usize = self.home[j];
            let ghost before = flags@;
            if h != j {
                flags.set(h, true);
            }
            proof {
                assert forall|g: int| 0 <= g < n implies (#[trigger] flags@[g] <==> exists|i: int|
                    0 <= i < j + 1 && i != g && #[trigger] self.home@[i] == g) by {
                    if flags@[g] {
                        if before[g] {
                            let i = choose|i: int|
                                0 <= i < j && i != g && #[trigger] self.home@[i] == g;
                            assert(self.home@[i] == g);
                        } else {
                            assert(self.home@[j as int] == g);
                        }
                    } else {
                        assert(!before[g]);
                        assert(!(j != g && self.home@[j as int] == g));
                    }
                }
            }
            j = j + 1;
        }
        let ghost dup = |h: int| has_duplicate(self.home@, h);
        let mut sets: usize = 0;
        let mut h: usize = 0;
        proof {
            lemma_ascending(n as nat, dup);
        }
        while h < n
            invariant
                n == self.home@.len(),
                h <= n,
                flags@.len() == n,
                dup == (|h: int| has_duplicate(self.home@, h)),
                forall|h: int|
                    0 <= h < n ==> (#[trigger] flags@[h] <==> has_duplicate(self.home@, h)),
                sets == ascending(h as nat, dup).len(),
                sets <= h,
            decreases n - h,
        {
            if flags[h] {
                sets = sets + 1;
            }
            h = h + 1;
        }
        proof {
            lemma_ascending(n as nat, own);
            lemma_ascending(n as nat, other);
        }
        let kept_sorted = sort_by_path(&self.files, &kept);
        let doomed_sorted = sort_by_path(&self.files, &doomed);
        DedupPlan { kept: kept_sorted, planned_deletions: doomed_sorted, duplicate_sets: sets }
    }
}

/// An answer on a later file changes nothing for a settled one.
proof fn lemma_settled_kept(
    before: Planner,
    answers: Answers,
    home: Seq<usize>,
    q: int,
    file: usize,
    kept: usize,
    identical: bool,
)
    requires
        0 <= q < before.position < before.order@.len(),
        before.order@.no_duplicates(),
        file == before.order@[before.position as int],
        answers == before.answers@.insert((file, kept), identical),
        home == before.home@ || home == before.home@.update(file as int, kept),
        forall|k: int|
            0 <= k < before.order@.len() ==> #[trigger] before.order@[k] < before.home@.len(),
        settled(before.files@, before.order@, before.home@, before.answers@, q),
    ensures
        settled(before.files@, before.order@, home, answers, q),
{
    let files = before.files@;
    let order = before.order@;
    assert(order[q] != file);
    assert forall|r: int| #![trigger order[r]] 0 <= r < before.position implies home[order[r] as int]
        == before.home@[order[r] as int] by {
        assert(order[r] != file);
    }
    if stands_alone(files, order, before.home@, before.answers@, q) {
        assert forall|s: int| #![trigger order[s]] 0 <= s < q && leads(
            files,
            order,
            home,
            s,
            q,
        ) implies found_different(answers, order[q], order[s]) by {
            assert(leads(files, order, before.home@, s, q));
        }
        assert(stands_alone(files, order, home, answers, q));
    } else {
        let r = choose|r: int| joins(files, order, before.home@, before.answers@, q, r);
        assert forall|s: int| #![trigger order[s]] 0 <= s < r && leads(
            files,
            order,
            home,
            s,
            q,
        ) implies found_different(answers, order[q], order[s]) by {
            assert(leads(files, order, before.home@, s, q));
        }
        assert(joins(files, order, home, answers, q, r));
    }
}

/// Whether `order` is the order in which the keep rule takes the hashed files.
pub open spec fn is_plan_order(
    order: Seq<usize>,
    files: Seq<FileInfo>,
    fine: Seq<FineTimes>,
    rule: KeepRuleRecord,
    platform: Platform,
) -> bool {
    is_sorting(order, hashed_indices(files), plan_order(files, fine, rule, platform))
}

pub(crate) proof fn lemma_plan_order_holds(
    order: Seq<usize>,
    files: Seq<FileInfo>,
    fine: Seq<FineTimes>,
    rule: KeepRuleRecord,
    platform: Platform,
)
    requires
        files.len() <= usize::MAX,
        is_plan_order(order, files, fine, rule, platform),
    ensures
        order.no_duplicates(),
        forall|q: int|
            0 <= q < order.len() ==> #[trigger] order[q] < files.len() && is_hashed(
                files[order[q] as int],
            ),
        forall|i: usize|
            i < files.len() && is_hashed(files[i as int]) ==> #[trigger] order.contains(i),
{
    let hashed = |i: int| is_hashed(files[i]);
    let items = hashed_indices(files);
    lemma_ascending(files.len(), hashed);
    lemma_sorting_keeps(order, items, plan_order(files, fine, rule, platform));
    assert forall|q: int| 0 <= q < order.len() implies #[trigger] order[q] < files.len()
        && is_hashed(files[order[q] as int]) by {
        assert(order.contains(order[q]));
        assert(items.contains(order[q]));
    }
    assert forall|i: usize| i < files.len() && is_hashed(files[i as int]) implies #[trigger] order.contains(
    i) by {
        assert(hashed(i as int));
        assert(items.contains(i));
    }
}

/// No file is planned for deletion unless it was compared, byte by byte, with a file that
/// is kept and found equal to it. The two share size and hash, and the keep rule prefers
/// the kept one.
pub proof fn law_deletions_are_verified(
    files: Seq<FileInfo>,
    fine: Seq<FineTimes>,
    rule: KeepRuleRecord,
    platform: Platform,
    order: Seq<usize>,
    home: Seq<usize>,
    answers: Answers,
    d: usize,
)
    requires
        files.len() <= usize::MAX,
        is_plan_order(order, files, fine, rule, platform),
        is_assignment(files, order, home, answers),
        d < files.len(),
        home[d as int] != d,
    ensures
        home[d as int] < files.len(),
        home[home[d as int] as int] == home[d as int],
        is_hashed(files[d as int]),
        same_content_key(files[home[d as int] as int], files[d as int]),
        found_equal(answers, d, home[d as int]),
        keep_leq(files, fine, rule, platform, home[d as int], d),
{
    lemma_plan_order_holds(order, files, fine, rule, platform);
    assert(is_hashed(files[d as int]));
    assert(order.contains(d));
    let q = choose|q: int| 0 <= q < order.len() && order[q] == d;
    assert(settled(files, order, home, answers, q));
    let r = choose|r: int| joins(files, order, home, answers, q, r);
    let leq = plan_order(files, fine, rule, platform);
    assert(leq(order[r], order[q]));
    lemma_content_key_order(files[order[r] as int], files[order[q] as int]);
}

/// Whether a file was modified no earlier than another.
pub open spec fn modified_no_earlier(
    files: Seq<FileInfo>,
    fine: Seq<FineTimes>,
    i: int,
    j: int,
) -> bool {
    files[i].modified_time > files[j].modified_time || (files[i].modified_time
        == files[j].modified_time && fine[i].modified >= fine[j].modified)
}

/// Whether a file was created no later than another.
pub open spec fn created_no_later(
    files: Seq<FileInfo>,
    fine: Seq<FineTimes>,
    i: int,
    j: int,
) -> bool {
    files[i].created_time < files[j].created_time || (files[i].created_time
        == files[j].created_time && fine[i].created <= fine[j].created)
}

/// What the keep rules are named after: of a file planned for deletion and the one that is
/// kept for it, the kept one was not created later, or not modified earlier, by so much as a
/// nanosecond, or lies in the preferred folder.
pub proof fn law_keep_rule_decides(
    files: Seq<FileInfo>,
    fine: Seq<FineTimes>,
    rule: KeepRuleRecord,
    platform: Platform,
    order: Seq<usize>,
    home: Seq<usize>,
    answers: Answers,
    d: usize,
)
    requires
        files.len() <= usize::MAX,
        is_plan_order(order, files, fine, rule, platform),
        is_assignment(files, order, home, answers),
        d < files.len(),
        home[d as int] != d,
    ensures
        ({
            let kept = home[d as int] as int;
            match rule {
                KeepRuleRecord::OldestCreated => created_no_later(files, fine, kept, d as int),
                KeepRuleRecord::NewestModified => modified_no_earlier(files, fine, kept, d as int),
                KeepRuleRecord::PreferPath(folder) => {
                    let kept_is_preferred = is_preferred(
                        files[kept].file_path@,
                        folder,
                        platform,
                    );
                    let other_is_preferred = is_preferred(
                        files[d as int].file_path@,
                        folder,
                        platform,
                    );
                    &&& other_is_preferred ==> kept_is_preferred
                    &&& kept_is_preferred == other_is_preferred ==> created_no_later(
                        files,
                        fine,
                        kept,
                        d as int,
                    )
                },
            }
        }),
{
    law_deletions_are_verified(files, fine, rule, platform, order, home, answers, d);
}

/// Where a folder is preferred, the file that is kept of a set of equal files starts with that
/// folder whenever one of the set does, however deep below the folder it lies. Where both or
/// neither do, the kept one was created no later.
pub proof fn law_preferred_folder_decides(
    files: Seq<FileInfo>,
    fine: Seq<FineTimes>,
    folder: Seq<char>,
    platform: Platform,
    order: Seq<usize>,
    home: Seq<usize>,
    answers: Answers,
    d: usize,
)
    requires
        files.len() <= usize::MAX,
        is_plan_order(order, files, fine, KeepRuleRecord::PreferPath(folder), platform),
        is_assignment(files, order, home, answers),
        d < files.len(),
        home[d as int] != d,
    ensures
        ({
            let kept = home[d as int] as int;
            let kept_is_there = starts_in(files[kept].file_path@, folder, platform);
            let other_is_there = starts_in(files[d as int].file_path@, folder, platform);
            &&& other_is_there ==> kept_is_there
            &&& kept_is_there == other_is_there ==> {
                ||| files[kept].created_time < files[d as int].created_time
                ||| files[kept].created_time == files[d as int].created_time && fine[kept].created
                    <= fine[d as int].created
            }
        }),
{
    let rule = KeepRuleRecord::PreferPath(folder);
    law_deletions_are_verified(files, fine, rule, platform, order, home, answers, d);
    let kept = home[d as int] as int;
    law_preferred_paths_start_in_the_folder(files[kept].file_path@, folder, platform);
    law_preferred_paths_start_in_the_folder(files[d as int].file_path@, folder, platform);
}

/// Files that were not hashed are kept.
pub proof fn law_unhashed_files_are_kept(
    files: Seq<FileInfo>,
    order: Seq<usize>,
    home: Seq<usize>,
    answers: Answers,
    plan: DedupPlan,
    i: usize,
)
    requires
        files.len() <= usize::MAX,
        is_assignment(files, order, home, answers),
        is_plan(plan, files, home),
        i < files.len(),
        !is_hashed(files[i as int]),
    ensures
        plan.kept@.contains(i),
        !plan.planned_deletions@.contains(i),
{
    law_plan_covers_all_files(files, home, plan);
    assert(home[i as int] == i);
}

/// Every file is either kept or planned for deletion, and none is both.
pub proof fn law_plan_covers_all_files(files: Seq<FileInfo>, home: Seq<usize>, plan: DedupPlan)
    requires
        files.len() <= usize::MAX,
        home.len() == files.len(),
        is_plan(plan, files, home),
    ensures
        plan.kept@.len() + plan.planned_deletions@.len() == files.len(),
        plan.kept@.no_duplicates(),
        plan.planned_deletions@.no_duplicates(),
        forall|i: usize| #[trigger]
            plan.kept@.contains(i) <==> i < files.len() && home[i as int] == i,
        forall|i: usize| #[trigger]
            plan.planned_deletions@.contains(i) <==> i < files.len() && home[i as int] != i,
{
    let own = |i: int| home[i] == i;
    let other = |i: int| home[i] != i;
    lemma_ascending(files.len(), own);
    lemma_ascending(files.len(), other);
    lemma_ascending_parts(files.len(), own, other);
    lemma_sorting_keeps(plan.kept@, kept_indices(home), path_order(files));
    lemma_sorting_keeps(plan.planned_deletions@, doomed_indices(home), path_order(files));
}

/// Of two kept files with one size and hash, the one that the keep rule takes later was
/// compared with the earlier one and not found equal.
pub proof fn law_kept_files_differ(
    files: Seq<FileInfo>,
    fine: Seq<FineTimes>,
    rule: KeepRuleRecord,
    platform: Platform,
    order: Seq<usize>,
    home: Seq<usize>,
    answers: Answers,
    a: usize,
    b: usize,
)
    requires
        files.len() <= usize::MAX,
        is_plan_order(order, files, fine, rule, platform),
        is_assignment(files, order, home, answers),
        a < files.len(),
        b < files.len(),
        a != b,
        home[a as int] == a,
        home[b as int] == b,
        is_hashed(files[a as int]),
        same_content_key(files[a as int], files[b as int]),
        keep_leq(files, fine, rule, platform, a, b),
    ensures
        found_different(answers, b, a),
{
    lemma_plan_order_holds(order, files, fine, rule, platform);
    assert(order.contains(a) && order.contains(b));
    let p = choose|p: int| 0 <= p < order.len() && order[p] == a;
    let q = choose|q: int| 0 <= q < order.len() && order[q] == b;
    let leq = plan_order(files, fine, rule, platform);
    lemma_plan_order_total(files, fine, rule, platform);
    assert(leq(a, b));
    if q < p {
        assert(leq(order[q], order[p]));
        assert(leq(b, a));
    }
    assert(settled(files, order, home, answers, q));
    if !stands_alone(files, order, home, answers, q) {
        let r = choose|r: int| joins(files, order, home, answers, q, r);
        assert(order[r] == order[q]);
    }
    assert(leads(files, order, home, p, q));
}

/// Deleting what is planned loses nothing: where files that were found equal have equal
/// contents, the contents of every file are those of some kept file.
pub proof fn law_no_content_is_lost(
    files: Seq<FileInfo>,
    fine: Seq<FineTimes>,
    rule: KeepRuleRecord,
    platform: Platform,
    order: Seq<usize>,
    home: Seq<usize>,
    answers: Answers,
    plan: DedupPlan,
    contents: spec_fn(usize) -> Seq<u8>,
    i: usize,
)
    requires
        files.len() <= usize::MAX,
        is_plan_order(order, files, fine, rule, platform),
        is_assignment(files, order, home, answers),
        is_plan(plan, files, home),
        forall|a: usize, b: usize| #[trigger]
            found_equal(answers, a, b) ==> contents(a) == contents(b),
        i < files.len(),
    ensures
        exists|k: usize| #[trigger] plan.kept@.contains(k) && contents(k) == contents(i),
{
    law_plan_covers_all_files(files, home, plan);
    if home[i as int] == i {
        assert(plan.kept@.contains(i));
    } else {
        law_deletions_are_verified(files, fine, rule, platform, order, home, answers, i);
        assert(plan.kept@.contains(home[i as int]));
    }
}

/// There are as many sets of duplicates as kept files that some file planned for deletion is a
/// duplicate of.
pub proof fn law_duplicate_sets_are_counted(
    files: Seq<FileInfo>,
    fine: Seq<FineTimes>,
    rule: KeepRuleRecord,
    platform: Platform,
    order: Seq<usize>,
    home: Seq<usize>,
    answers: Answers,
    plan: DedupPlan,
)
    requires
        files.len() <= usize::MAX,
        is_plan_order(order, files, fine, rule, platform),
        is_assignment(files, order, home, answers),
        is_plan(plan, files, home),
    ensures
        plan.duplicate_sets == duplicated_indices(home).len(),
        duplicated_indices(home).no_duplicates(),
        forall|h: usize| #[trigger]
            duplicated_indices(home).contains(h) <==> plan.kept@.contains(h) && exists|d: usize|
                #![trigger plan.planned_deletions@.contains(d)]
                plan.planned_deletions@.contains(d) && home[d as int] == h,
{
    law_plan_covers_all_files(files, home, plan);
    let dup = |h: int| has_duplicate(home, h);
    lemma_ascending(home.len(), dup);
    assert forall|h: usize| #[trigger]
        duplicated_indices(home).contains(h) <==> plan.kept@.contains(h) && exists|d: usize|
            #![trigger plan.planned_deletions@.contains(d)]
            plan.planned_deletions@.contains(d) && home[d as int] == h by {
        if duplicated_indices(home).contains(h) {
            assert(has_duplicate(home, h as int));
            let i = choose|i: int| 0 <= i < home.len() && i != h && #[trigger] home[i] == h;
            law_deletions_are_verified(
                files,
                fine,
                rule,
                platform,
                order,
                home,
                answers,
                i as usize,
            );
            assert(plan.planned_deletions@.contains(i as usize));
        }
        if plan.kept@.contains(h) && exists|d: usize|
            #![trigger plan.planned_deletions@.contains(d)]
            plan.planned_deletions@.contains(d) && home[d as int] == h {
            let d = choose|d: usize|
                #![trigger plan.planned_deletions@.contains(d)]
                plan.planned_deletions@.contains(d) && home[d as int] == h;
            assert(home[d as int] == h as int);
            assert(dup(h as int));
        }
    }
}

/// There are sets of duplicates exactly where something is planned for deletion.
pub proof fn law_duplicate_sets(files: Seq<FileInfo>, home: Seq<usize>, plan: DedupPlan)
    requires
        files.len() <= usize::MAX,
        home.len() == files.len(),
        forall|i: int| 0 <= i < home.len() ==> #[trigger] home[i] < home.len(),
        is_plan(plan, files, home),
    ensures
        plan.duplicate_sets == 0 <==> plan.planned_deletions@.len() == 0,
{
    law_plan_covers_all_files(files, home, plan);
    let dup = |h: int| has_duplicate(home, h);
    lemma_ascending(home.len(), dup);
    if plan.planned_deletions@.len() > 0 {
        let d = plan.planned_deletions@[0];
        assert(plan.planned_deletions@.contains(d));
        assert(home[d as int] == home[d as int] as int);
        assert(dup(home[d as int] as int));
        assert(duplicated_indices(home).contains(home[d as int]));
    }
    if plan.duplicate_sets > 0 {
        let h = duplicated_indices(home)[0];
        assert(has_duplicate(home, h as int));
        let i = choose|i: int| 0 <= i < home.len() && i != h && #[trigger] home[i] == h;
        assert(plan.planned_deletions@.contains(i as usize));
    }
}

proof fn lemma_orders_agree(
    files: Seq<FileInfo>,
    others: Seq<FileInfo>,
    fine: Seq<FineTimes>,
    rule: KeepRuleRecord,
    platform: Platform,
)
    requires
        files.len() <= usize::MAX,
        records(files) == records(others),
    ensures
        files.len() == others.len(),
        hashed_indices(files) == hashed_indices(others),
        forall|i: usize, j: usize|
            i < files.len() && j < files.len() ==> #[trigger] plan_order(
                files,
                fine,
                rule,
                platform,
            )(i, j) == plan_order(others, fine, rule, platform)(i, j),
        forall|i: usize, j: usize|
            i < files.len() && j < files.len() ==> #[trigger] path_order(files)(i, j)
                == path_order(others)(i, j),
        forall|i: int, j: int|
            0 <= i < files.len() && 0 <= j < files.len() ==> #[trigger] same_content_key(
                files[i],
                files[j],
            ) == same_content_key(others[i], others[j]),
        forall|i: int|
            0 <= i < files.len() ==> is_hashed(#[trigger] files[i]) == is_hashed(others[i]),
{
    assert(records(files).len() == files.len());
    assert(records(others).len() == others.len());
    assert forall|i: int| 0 <= i < files.len() implies (#[trigger] files[i])@ == others[i]@ by {
        assert(records(files)[i] == files[i]@);
        assert(records(others)[i] == others[i]@);
    }
    lemma_ascending_congruent(
        files.len(),
        |i: int| is_hashed(files[i]),
        |i: int| is_hashed(others[i]),
    );
    assert forall|i: usize, j: usize| i < files.len() && j < files.len() implies #[trigger] plan_order(
        files,
        fine,
        rule,
        platform,
    )(i, j) == plan_order(others, fine, rule, platform)(i, j) by {
        assert(files[i as int]@ == others[i as int]@);
        assert(files[j as int]@ == others[j as int]@);
    }
    assert forall|i: usize, j: usize| i < files.len() && j < files.len() implies #[trigger] path_order(
        files,
    )(i, j) == path_order(others)(i, j) by {
        assert(files[i as int]@ == others[i as int]@);
        assert(files[j as int]@ == others[j as int]@);
    }
    assert forall|i: int, j: int|
        0 <= i < files.len() && 0 <= j < files.len() implies #[trigger] same_content_key(
        files[i],
        files[j],
    ) == same_content_key(others[i], others[j]) by {
        assert(files[i]@ == others[i]@);
        assert(files[j]@ == others[j]@);
    }
    assert forall|i: int| 0 <= i < files.len() implies is_hashed(#[trigger] files[i]) == is_hashed(
        others[i],
    ) by {
        assert(files[i]@ == others[i]@);
    }
}

/// A sorting in one order is a sorting in any order that agrees with it on the indices.
pub(crate) proof fn lemma_sorting_transfers(
    out: Seq<usize>,
    items: Seq<usize>,
    n: nat,
    leq: spec_fn(usize, usize) -> bool,
    other: spec_fn(usize, usize) -> bool,
)
    requires
        is_sorting(out, items, leq),
        forall|k: int| 0 <= k < items.len() ==> #[trigger] items[k] < n,
        forall|i: usize, j: usize| i < n && j < n ==> #[trigger] leq(i, j) == other(i, j),
    ensures
        is_sorting(out, items, other),
{
    lemma_sorting_keeps(out, items, leq);
    assert forall|i: int, j: int| 0 <= i < j < out.len() implies #[trigger] other(
        out[i],
        out[j],
    ) by {
        assert(out.contains(out[i]) && out.contains(out[j]));
        assert(items.contains(out[i]) && items.contains(out[j]));
        assert(leq(out[i], out[j]));
    }
}

proof fn lemma_homes_agree(
    files: Seq<FileInfo>,
    others: Seq<FileInfo>,
    order: Seq<usize>,
    home: Seq<usize>,
    other_home: Seq<usize>,
    answers: Answers,
    other_answers: Answers,
    q: int,
)
    requires
        files.len() == others.len(),
        order.no_duplicates(),
        forall|k: int| 0 <= k < order.len() ==> #[trigger] order[k] < files.len(),
        forall|i: int, j: int|
            0 <= i < files.len() && 0 <= j < files.len() ==> #[trigger] same_content_key(
                files[i],
                files[j],
            ) == same_content_key(others[i], others[j]),
        is_assignment(files, order, home, answers),
        is_assignment(others, order, other_home, other_answers),
        forall|a: usize, b: usize| #[trigger]
            answers.dom().contains((a, b)) && other_answers.dom().contains((a, b)) ==> answers[(
                a,
                b,
            )] == other_answers[(a, b)],
        0 <= q < order.len(),
    ensures
        forall|p: int|
            0 <= p <= q ==> home[#[trigger] order[p] as int] == other_home[order[p] as int],
    decreases q,
{
    if q > 0 {
        lemma_homes_agree(files, others, order, home, other_home, answers, other_answers, q - 1);
    }
    assert forall|r: int| #![trigger order[r]] 0 <= r < q implies leads(files, order, home, r, q)
        == leads(others, order, other_home, r, q) by {
        assert(home[order[r] as int] == other_home[order[r] as int]);
        assert(same_content_key(files[order[r] as int], files[order[q] as int])
            == same_content_key(others[order[r] as int], others[order[q] as int]));
    }
    assert(settled(files, order, home, answers, q));
    assert(settled(others, order, other_home, other_answers, q));
    if stands_alone(files, order, home, answers, q) {
        if !stands_alone(others, order, other_home, other_answers, q) {
            let r = choose|r: int| joins(others, order, other_home, other_answers, q, r);
            assert(leads(files, order, home, r, q));
            assert(found_different(answers, order[q], order[r]));
            assert(answers.dom().contains((order[q], order[r])));
            assert(false);
        }
    } else {
        let r = choose|r: int| joins(files, order, home, answers, q, r);
        assert(leads(others, order, other_home, r, q));
        assert(answers.dom().contains((order[q], order[r])));
        if stands_alone(others, order, other_home, other_answers, q) {
            assert(found_different(other_answers, order[q], order[r]));
            assert(false);
        } else {
            let s = choose|s: int| joins(others, order, other_home, other_answers, q, s);
            assert(leads(files, order, home, s, q));
            if r < s {
                assert(found_different(other_answers, order[q], order[r]));
                assert(false);
            }
            if s < r {
                assert(found_different(answers, order[q], order[s]));
                assert(answers.dom().contains((order[q], order[s])));
                assert(false);
            }
        }
    }
}

/// A plan can be made again: for the same files with the same times, and where no comparison
/// comes out differently, two runs plan the same deletions.
pub proof fn law_same_files_same_plan(
    files: Seq<FileInfo>,
    others: Seq<FileInfo>,
    fine: Seq<FineTimes>,
    rule: KeepRuleRecord,
    platform: Platform,
    order: Seq<usize>,
    other_order: Seq<usize>,
    home: Seq<usize>,
    other_home: Seq<usize>,
    answers: Answers,
    other_answers: Answers,
    plan: DedupPlan,
    other_plan: DedupPlan,
)
    requires
        files.len() <= usize::MAX,
        records(files) == records(others),
        is_plan_order(order, files, fine, rule, platform),
        is_plan_order(other_order, others, fine, rule, platform),
        is_assignment(files, order, home, answers),
        is_assignment(others, other_order, other_home, other_answers),
        forall|a: usize, b: usize| #[trigger]
            answers.dom().contains((a, b)) && other_answers.dom().contains((a, b)) ==> answers[(
                a,
                b,
            )] == other_answers[(a, b)],
        is_plan(plan, files, home),
        is_plan(other_plan, others, other_home),
    ensures
        plan.kept@ == other_plan.kept@,
        plan.planned_deletions@ == other_plan.planned_deletions@,
        plan.duplicate_sets == other_plan.duplicate_sets,
{
    lemma_orders_agree(files, others, fine, rule, platform);
    lemma_plan_order_holds(order, files, fine, rule, platform);
    lemma_plan_order_holds(other_order, others, fine, rule, platform);
    let leq = plan_order(files, fine, rule, platform);
    let other_leq = plan_order(others, fine, rule, platform);
    let n = files.len();
    lemma_ascending(n, |i: int| is_hashed(files[i]));
    lemma_sorting_transfers(order, hashed_indices(files), n, leq, other_leq);
    lemma_plan_order_total(others, fine, rule, platform);
    law_there_is_one_sorting(order, other_order, hashed_indices(files), other_leq);
    if order.len() > 0 {
        lemma_homes_agree(
            files,
            others,
            order,
            home,
            other_home,
            answers,
            other_answers,
            order.len() - 1,
        );
    }
    assert forall|i: int| 0 <= i < n implies home[i] == other_home[i] by {
        if is_hashed(files[i]) {
            assert(order.contains(i as usize));
            let q = choose|q: int| 0 <= q < order.len() && order[q] == i as usize;
            assert(home[order[q] as int] == other_home[order[q] as int]);
        } else {
            assert(home[i] == i);
            assert(!is_hashed(others[i]));
            assert(other_home[i] == i);
        }
    }
    assert(home =~= other_home);
    lemma_ascending(n, |i: int| home[i] == i);
    lemma_ascending(n, |i: int| home[i] != i);
    lemma_path_order_total(others);
    lemma_sorting_transfers(
        plan.kept@,
        kept_indices(home),
        n,
        path_order(files),
        path_order(others),
    );
    lemma_sorting_transfers(
        plan.planned_deletions@,
        doomed_indices(home),
        n,
        path_order(files),
        path_order(others),
    );
    law_there_is_one_sorting(plan.kept@, other_plan.kept@, kept_indices(home), path_order(others));
    law_there_is_one_sorting(
        plan.planned_deletions@,
        other_plan.planned_deletions@,
        doomed_indices(home),
        path_order(others),
    );
}

/// A plan lists the kept files and those planned for deletion in the order of their paths.
pub proof fn law_plan_is_in_the_order_of_paths(
    plan: DedupPlan,
    files: Seq<FileInfo>,
    home: Seq<usize>,
    j: int,
    k: int,
)
    requires
        is_plan(plan, files, home),
        0 <= j < k,
    ensures
        k < plan.kept@.len() ==> {
            let a = files[plan.kept@[j] as int].file_path@;
            let b = files[plan.kept@[k] as int].file_path@;
            text_lt(a, b) || a == b
        },
        k < plan.planned_deletions@.len() ==> {
            let a = files[plan.planned_deletions@[j] as int].file_path@;
            let b = files[plan.planned_deletions@[k] as int].file_path@;
            text_lt(a, b) || a == b
        },
{
    let leq = path_order(files);
    if k < plan.kept@.len() {
        assert(leq(plan.kept@[j], plan.kept@[k]));
    }
    if k < plan.planned_deletions@.len() {
        assert(leq(plan.planned_deletions@[j], plan.planned_deletions@[k]));
    }
}

} // verus!
