//! Aggregated question statistics: per-tag and per-site word and question
//! counts, their combination, and the chattiness ranking.
//!
//! A tag's or site's chattiness is its word count divided by its question
//! count, zero when it has no questions.  The ranking never divides: it
//! compares the exact rationals by cross-multiplication, so two scores
//! compare the way the quotients would.

use vstd::prelude::*;

use vstd::multiset::Multiset;

use crate::text::str_eq;

verus! {

/// Word and question counts for one tag.
#[derive(Debug)]
pub struct TagSummary {
    /// Tag name; only same-named tags combine.
    pub name: String,
    /// Number of questions this tag appears in.
    pub questions: u32,
    /// Total word count over every question this tag appears in.
    pub words: u32,
}

/// The chattiness numerator: the word count, except that no questions means a
/// score of zero.
pub open spec fn chat_num(questions: u32, words: u32) -> int {
    if questions == 0 {
        0
    } else {
        words as int
    }
}

/// The chattiness denominator; one when there are no questions, so the score
/// is exactly zero.
pub open spec fn chat_den(questions: u32, words: u32) -> int {
    if questions == 0 {
        1
    } else {
        questions as int
    }
}

/// Whether the first score is at most the second: the exact comparison of
/// `words/questions` as rationals, by cross-multiplication.
pub open spec fn chat_le(aq: u32, aw: u32, bq: u32, bw: u32) -> bool {
    chat_num(aq, aw) * chat_den(bq, bw) <= chat_num(bq, bw) * chat_den(aq, aw)
}

/// Compares two chattiness scores exactly.
pub fn chat_le_exec(aq: u32, aw: u32, bq: u32, bw: u32) -> (r: bool)
    ensures
        r == chat_le(aq, aw, bq, bw),
{
    let an: u64 = if aq == 0 {
        0
    } else {
        aw as u64
    };
    let ad: u64 = if aq == 0 {
        1
    } else {
        aq as u64
    };
    let bn: u64 = if bq == 0 {
        0
    } else {
        bw as u64
    };
    let bd: u64 = if bq == 0 {
        1
    } else {
        bq as u64
    };
    proof {
        assert(an * bd <= u64::MAX && bn * ad <= u64::MAX) by (nonlinear_arith)
            requires
                an <= u32::MAX && ad <= u32::MAX && bn <= u32::MAX && bd <= u32::MAX,
        ;
    }
    an * bd <= bn * ad
}

/// The chattiness comparison is total: of any two scores one is at most the
/// other.
pub proof fn lemma_chat_le_total(aq: u32, aw: u32, bq: u32, bw: u32)
    ensures
        chat_le(aq, aw, bq, bw) || chat_le(bq, bw, aq, aw),
{
}

impl TagSummary {
    /// A tag summary with the given name and counts.
    pub fn new(name: String, question_count: u32, word_count: u32) -> (r: TagSummary)
        ensures
            r.name@ == name@,
            r.questions == question_count,
            r.words == word_count,
    {
        TagSummary { name, questions: question_count, words: word_count }
    }

    /// Combines two summaries of the same tag, adding both counts.
    pub fn combine(&self, other: &TagSummary) -> (r: TagSummary)
        requires
            self.name@ == other.name@,
            self.questions + other.questions <= u32::MAX,
            self.words + other.words <= u32::MAX,
        ensures
            r.name@ == self.name@,
            r.questions == self.questions + other.questions,
            r.words == self.words + other.words,
    {
        TagSummary {
            name: self.name.clone(),
            questions: self.questions + other.questions,
            words: self.words + other.words,
        }
    }

    /// Whether this tag scores at most the other.
    pub fn chattiness_le(&self, other: &TagSummary) -> (r: bool)
        ensures
            r == chat_le(self.questions, self.words, other.questions, other.words),
    {
        chat_le_exec(self.questions, self.words, other.questions, other.words)
    }
}

/// The sum of the question counts.
pub open spec fn sum_questions(s: Seq<TagSummary>) -> int
    decreases s.len(),
{
    if s.len() == 0 {
        0
    } else {
        sum_questions(s.drop_last()) + s.last().questions
    }
}

/// The sum of the word counts.
pub open spec fn sum_words(s: Seq<TagSummary>) -> int
    decreases s.len(),
{
    if s.len() == 0 {
        0
    } else {
        sum_words(s.drop_last()) + s.last().words
    }
}

/// Whether some tag carries the given name.
pub open spec fn has_tag(s: Seq<TagSummary>, name: Seq<char>) -> bool {
    exists|i: int| 0 <= i < s.len() && s[i].name@ == name
}

/// The index of the tag carrying the given name.
pub open spec fn tag_idx(s: Seq<TagSummary>, name: Seq<char>) -> int {
    choose|i: int| 0 <= i < s.len() && s[i].name@ == name
}

/// Whether all tag names differ.
pub open spec fn unique_tags(s: Seq<TagSummary>) -> bool {
    forall|i: int, j: int| 0 <= i < j < s.len() ==> s[i].name@ != s[j].name@
}

/// What adding one tag does: a new name is appended; a known one has both
/// counts added in place.
pub open spec fn sp_add_tag(s: Seq<TagSummary>, t: TagSummary) -> Seq<TagSummary> {
    if has_tag(s, t.name@) {
        let i = tag_idx(s, t.name@);
        s.update(
            i,
            (TagSummary {
                questions: (s[i].questions + t.questions) as u32,
                words: (s[i].words + t.words) as u32,
                ..s[i]
            }),
        )
    } else {
        s.push(t)
    }
}

/// What adding a list of tags does, in order.
pub open spec fn sp_add_tags(s: Seq<TagSummary>, ts: Seq<TagSummary>) -> Seq<TagSummary>
    decreases ts.len(),
{
    if ts.len() == 0 {
        s
    } else {
        sp_add_tags(sp_add_tag(s, ts[0]), ts.drop_first())
    }
}

/// Sorted by descending chattiness.
pub open spec fn sorted_desc(s: Seq<TagSummary>) -> bool {
    forall|i: int, j: int|
        0 <= i <= j < s.len() ==> chat_le(s[j].questions, s[j].words, s[i].questions, s[i].words)
}

/// With unique names, a tag's index is the one `tag_idx` picks.
proof fn lemma_tag_idx_unique(s: Seq<TagSummary>, name: Seq<char>, i: int)
    requires
        unique_tags(s),
        0 <= i < s.len(),
        s[i].name@ == name,
    ensures
        has_tag(s, name),
        tag_idx(s, name) == i,
{
    assert(has_tag(s, name));
    let j = tag_idx(s, name);
    if j < i {
        assert(s[j].name@ != s[i].name@);
    } else if j > i {
        assert(s[i].name@ != s[j].name@);
    }
}

/// Adding a tag keeps names unique and moves the sums by exactly its counts.
proof fn lemma_sp_add_tag_sums(s: Seq<TagSummary>, t: TagSummary)
    requires
        unique_tags(s),
        has_tag(s, t.name@) ==> s[tag_idx(s, t.name@)].questions + t.questions <= u32::MAX
            && s[tag_idx(s, t.name@)].words + t.words <= u32::MAX,
    ensures
        unique_tags(sp_add_tag(s, t)),
        sum_questions(sp_add_tag(s, t)) == sum_questions(s) + t.questions,
        sum_words(sp_add_tag(s, t)) == sum_words(s) + t.words,
{
    if has_tag(s, t.name@) {
        let i = tag_idx(s, t.name@);
        let after = sp_add_tag(s, t);
        assert forall|x: int, y: int| 0 <= x < y < after.len() implies after[x].name@
            != after[y].name@ by {
            assert(after[x].name@ == s[x].name@);
            assert(after[y].name@ == s[y].name@);
        }
        lemma_sum_update(s, i, after[i]);
    } else {
        let after = s.push(t);
        assert forall|x: int, y: int| 0 <= x < y < after.len() implies after[x].name@
            != after[y].name@ by {
            assert(after[x] == s[x]);
            if y < after.len() - 1 {
                assert(after[y] == s[y]);
            } else {
                assert(!has_tag(s, t.name@));
            }
        }
        assert(after.drop_last() =~= s);
    }
}

/// Updating one entry moves the sums by exactly the entry's change.
proof fn lemma_sum_update(s: Seq<TagSummary>, i: int, t: TagSummary)
    requires
        0 <= i < s.len(),
    ensures
        sum_questions(s.update(i, t)) == sum_questions(s) - s[i].questions + t.questions,
        sum_words(s.update(i, t)) == sum_words(s) - s[i].words + t.words,
    decreases s.len(),
{
    let after = s.update(i, t);
    if i == s.len() - 1 {
        assert(after.drop_last() =~= s.drop_last());
        assert(after.last() == t);
    } else {
        assert(after.drop_last() =~= s.drop_last().update(i, t));
        lemma_sum_update(s.drop_last(), i, t);
        assert(after.last() == s.last());
    }
}

/// Every entry's counts are at most the sums.
proof fn lemma_entry_le_sum(s: Seq<TagSummary>, i: int)
    requires
        0 <= i < s.len(),
    ensures
        s[i].questions <= sum_questions(s),
        s[i].words <= sum_words(s),
        sum_questions(s) >= 0,
        sum_words(s) >= 0,
    decreases s.len(),
{
    lemma_sums_nonneg(s);
    if i == s.len() - 1 {
        lemma_sums_nonneg(s.drop_last());
    } else {
        lemma_entry_le_sum(s.drop_last(), i);
        assert(s.drop_last()[i] == s[i]);
    }
}

/// The chattiness comparison is transitive.
proof fn lemma_chat_le_trans(a: &TagSummary, b: &TagSummary, c: &TagSummary)
    requires
        chat_le(a.questions, a.words, b.questions, b.words),
        chat_le(b.questions, b.words, c.questions, c.words),
    ensures
        chat_le(a.questions, a.words, c.questions, c.words),
{
    let an = chat_num(a.questions, a.words);
    let ad = chat_den(a.questions, a.words);
    let bn = chat_num(b.questions, b.words);
    let bd = chat_den(b.questions, b.words);
    let cn = chat_num(c.questions, c.words);
    let cd = chat_den(c.questions, c.words);
    assert(an * cd <= cn * ad) by (nonlinear_arith)
        requires
            an * bd <= bn * ad,
            bn * cd <= cn * bd,
            ad > 0,
            bd > 0,
            cd > 0,
            an >= 0,
            bn >= 0,
            cn >= 0,
    ;
}

/// A non-empty sum decomposes at the front too.
proof fn lemma_sum_drop_first(s: Seq<TagSummary>)
    requires
        s.len() > 0,
    ensures
        sum_questions(s) == s[0].questions + sum_questions(s.drop_first()),
        sum_words(s) == s[0].words + sum_words(s.drop_first()),
    decreases s.len(),
{
    if s.len() == 1 {
        assert(s.drop_first() =~= Seq::<TagSummary>::empty());
        assert(s.drop_last() =~= Seq::<TagSummary>::empty());
    } else {
        lemma_sum_drop_first(s.drop_last());
        assert(s.drop_last()[0] == s[0]);
        assert(s.drop_last().drop_first() =~= s.drop_first().drop_last());
        assert(s.drop_first().last() == s.last());
    }
}

/// A copy of one tag, value for value.
fn copy_tag(t: &TagSummary) -> (r: TagSummary)
    ensures
        r == *t,
{
    TagSummary { name: t.name.clone(), questions: t.questions, words: t.words }
}

/// A copy of a tag list, value for value.
fn copy_tags(v: &Vec<TagSummary>) -> (r: Vec<TagSummary>)
    ensures
        r@ == v@,
{
    let n = v.len();
    let mut r: Vec<TagSummary> = Vec::new();
    let mut i: usize = 0;
    while i < n
        invariant
            i <= n,
            n == v@.len(),
            r@.len() == i,
            forall|j: int| 0 <= j < i ==> r@[j] == v@[j],
        decreases n - i,
    {
        r.push(copy_tag(&v[i]));
        i = i + 1;
    }
    proof {
        assert(r@ =~= v@);
    }
    r
}

/// Sorts tags by descending chattiness: the result is a reordering of the
/// input, highest scores first.
fn sort_desc(v: Vec<TagSummary>) -> (r: Vec<TagSummary>)
    ensures
        sorted_desc(r@),
        r@.to_multiset() == v@.to_multiset(),
        r@.len() == v@.len(),
{
    broadcast use vstd::seq_lib::group_to_multiset_ensures;

    let mut remaining = v;
    let ghost all = remaining@.to_multiset();
    let mut out: Vec<TagSummary> = Vec::new();
    while remaining.len() > 0
        invariant
            out@.to_multiset().add(remaining@.to_multiset()) == all,
            out@.len() + remaining@.len() == all.len(),
            sorted_desc(out@),
            forall|a: int, b: int|
                0 <= a < out@.len() && 0 <= b < remaining@.len() ==> chat_le(
                    remaining@[b].questions,
                    remaining@[b].words,
                    out@[a].questions,
                    out@[a].words,
                ),
        decreases remaining@.len(),
    {
        let m = remaining.len();
        let mut best: usize = 0;
        let mut j: usize = 1;
        while j < m
            invariant
                1 <= j <= m,
                m == remaining@.len(),
                best < j,
                forall|k: int|
                    0 <= k < j ==> chat_le(
                        remaining@[k].questions,
                        remaining@[k].words,
                        remaining@[best as int].questions,
                        remaining@[best as int].words,
                    ),
            decreases m - j,
        {
            if remaining[best].chattiness_le(&remaining[j]) {
                proof {
                    let ghost old_best = best as int;
                    assert forall|k: int|
                        0 <= k < j + 1 implies chat_le(
                        remaining@[k].questions,
                        remaining@[k].words,
                        remaining@[j as int].questions,
                        remaining@[j as int].words,
                    ) by {
                        if k < j {
                            lemma_chat_le_trans(
                                &remaining@[k],
                                &remaining@[old_best],
                                &remaining@[j as int],
                            );
                        } else {
                            lemma_chat_le_total(
                                remaining@[k].questions,
                                remaining@[k].words,
                                remaining@[k].questions,
                                remaining@[k].words,
                            );
                        }
                    }
                }
                best = j;
            } else {
                proof {
                    lemma_chat_le_total(
                        remaining@[j as int].questions,
                        remaining@[j as int].words,
                        remaining@[best as int].questions,
                        remaining@[best as int].words,
                    );
                }
            }
            j = j + 1;
        }
        let ghost rem_before = remaining@;
        let ghost out_before = out@;
        let picked = remaining.remove(best);
        out.push(picked);
        proof {
            rem_before.to_multiset_ensures();
            out_before.to_multiset_ensures();
            assert(rem_before.remove(best as int).to_multiset() =~= rem_before.to_multiset()
                .remove(picked));
            assert(out@.to_multiset() =~= out_before.to_multiset().insert(picked));
            assert(out@.to_multiset().add(remaining@.to_multiset()) =~= all);
            assert forall|a: int, b: int|
                0 <= a < out@.len() && 0 <= b < remaining@.len() implies chat_le(
                remaining@[b].questions,
                remaining@[b].words,
                out@[a].questions,
                out@[a].words,
            ) by {
                let b0 = if b < best {
                    b
                } else {
                    b + 1
                };
                assert(remaining@[b] == rem_before[b0]);
                if a < out@.len() - 1 {
                    assert(out@[a] == out_before[a]);
                } else {
                    assert(out@[a] == picked);
                }
            }
            assert forall|a: int, b: int| 0 <= a <= b < out@.len() implies chat_le(
                out@[b].questions,
                out@[b].words,
                out@[a].questions,
                out@[a].words,
            ) by {
                if b < out@.len() - 1 {
                    assert(out@[a] == out_before[a]);
                    assert(out@[b] == out_before[b]);
                } else if a < b {
                    assert(out@[a] == out_before[a]);
                    assert(out@[b] == picked);
                } else {
                    lemma_chat_le_total(
                        out@[a].questions,
                        out@[a].words,
                        out@[a].questions,
                        out@[a].words,
                    );
                }
            }
        }
    }
    proof {
        out@.to_multiset_ensures();
        v@.to_multiset_ensures();
        assert(remaining@.to_multiset() =~= Multiset::<TagSummary>::empty()) by {
            assert(remaining@ =~= Seq::<TagSummary>::empty());
        }
        assert(out@.to_multiset() =~= all);
        assert(out@.to_multiset().len() == out@.len());
        assert(v@.to_multiset().len() == v@.len());
    }
    out
}

/// Word and question counts for one site, with the per-tag breakdown.
#[derive(Debug)]
pub struct SiteSummary {
    /// Site name.
    pub name: String,
    /// Number of questions in this site.
    pub questions: u32,
    /// Total word count over every question in this site.
    pub words: u32,
    /// The per-tag summaries, names unique.
    pub tags: Vec<TagSummary>,
}

impl SiteSummary {
    /// Tag names never repeat.
    pub open spec fn wf(&self) -> bool {
        unique_tags(self.tags@)
    }

    /// A site summary over the given tags: the word and question counts are
    /// the sums over the list, and same-named tags merge.
    pub fn new(site: &str, tags: Vec<TagSummary>) -> (r: SiteSummary)
        requires
            sum_questions(tags@) <= u32::MAX,
            sum_words(tags@) <= u32::MAX,
        ensures
            r.wf(),
            r.name@ == site@,
            r.questions == sum_questions(tags@),
            r.words == sum_words(tags@),
            r.tags@ == sp_add_tags(Seq::empty(), tags@),
    {
        let ghost all = tags@;
        let mut summary = SiteSummary {
            name: site.to_owned(),
            questions: 0,
            words: 0,
            tags: Vec::new(),
        };
        let mut rest = tags;
        proof {
            lemma_sums_nonneg(rest@);
        }
        while rest.len() > 0
            invariant
                summary.wf(),
                summary.name@ == site@,
                sum_questions(all) <= u32::MAX,
                sum_words(all) <= u32::MAX,
                summary.questions == sum_questions(summary.tags@),
                summary.words == sum_words(summary.tags@),
                sum_questions(summary.tags@) + sum_questions(rest@) == sum_questions(all),
                sum_words(summary.tags@) + sum_words(rest@) == sum_words(all),
                sp_add_tags(summary.tags@, rest@) == sp_add_tags(Seq::empty(), all),
            decreases rest@.len(),
        {
            let ghost rest_before = rest@;
            proof {
                lemma_sum_drop_first(rest_before);
                lemma_sums_nonneg(rest_before.drop_first());
                lemma_sums_nonneg(summary.tags@);
            }
            let t = rest.remove(0);
            proof {
                assert(rest@ =~= rest_before.drop_first());
                if has_tag(summary.tags@, t.name@) {
                    lemma_entry_le_sum(summary.tags@, tag_idx(summary.tags@, t.name@));
                }
            }
            let q = t.questions;
            let w = t.words;
            summary.merge_tag(t);
            summary.questions = summary.questions + q;
            summary.words = summary.words + w;
            proof {
                lemma_sums_nonneg(rest@);
            }
        }
        proof {
            assert(rest@ =~= Seq::<TagSummary>::empty());
        }
        summary
    }

    /// An empty site summary.
    pub fn empty() -> (r: SiteSummary)
        ensures
            r.wf(),
            r.name@ == "Empty"@,
            r.questions == 0,
            r.words == 0,
            r.tags@.len() == 0,
    {
        let name: &str = "Empty";
        SiteSummary { name: name.to_owned(), questions: 0, words: 0, tags: Vec::new() }
    }

    /// Merges one tag in: a new name is appended, a known one has its counts
    /// added.
    fn merge_tag(&mut self, t: TagSummary)
        requires
            old(self).wf(),
            has_tag(old(self).tags@, t.name@) ==> old(self).tags@[tag_idx(
                old(self).tags@,
                t.name@,
            )].questions + t.questions <= u32::MAX && old(self).tags@[tag_idx(
                old(self).tags@,
                t.name@,
            )].words + t.words <= u32::MAX,
        ensures
            final(self).wf(),
            final(self).tags@ == sp_add_tag(old(self).tags@, t),
            final(self).name@ == old(self).name@,
            final(self).questions == old(self).questions,
            final(self).words == old(self).words,
            sum_questions(final(self).tags@) == sum_questions(old(self).tags@) + t.questions,
            sum_words(final(self).tags@) == sum_words(old(self).tags@) + t.words,
    {
        let n = self.tags.len();
        let mut i: usize = 0;
        while i < n
            invariant
                i <= n,
                n == self.tags@.len(),
                self == old(self),
                old(self).wf(),
                has_tag(old(self).tags@, t.name@) ==> old(self).tags@[tag_idx(
                    old(self).tags@,
                    t.name@,
                )].questions + t.questions <= u32::MAX && old(self).tags@[tag_idx(
                    old(self).tags@,
                    t.name@,
                )].words + t.words <= u32::MAX,
                forall|j: int| 0 <= j < i ==> self.tags@[j].name@ != t.name@,
            decreases n - i,
        {
            if str_eq(self.tags[i].name.as_str(), t.name.as_str()) {
                proof {
                    lemma_tag_idx_unique(self.tags@, t.name@, i as int);
                    lemma_sp_add_tag_sums(old(self).tags@, t);
                }
                let q = self.tags[i].questions;
                let w = self.tags[i].words;
                self.tags[i].questions = q + t.questions;
                self.tags[i].words = w + t.words;
                proof {
                    assert(self.tags@ =~= sp_add_tag(old(self).tags@, t));
                }
                return ;
            }
            i = i + 1;
        }
        proof {
            lemma_sp_add_tag_sums(old(self).tags@, t);
        }
        self.tags.push(t);
    }

    /// Combines two summaries: counts add up, and the tag lists merge tag by
    /// tag.
    pub fn combine(&self, other: &SiteSummary) -> (r: SiteSummary)
        requires
            self.wf(),
            other.wf(),
            self.questions + other.questions <= u32::MAX,
            self.words + other.words <= u32::MAX,
            sum_questions(self.tags@) + sum_questions(other.tags@) <= u32::MAX,
            sum_words(self.tags@) + sum_words(other.tags@) <= u32::MAX,
        ensures
            r.wf(),
            r.name@ == "Combined"@,
            r.questions == self.questions + other.questions,
            r.words == self.words + other.words,
            r.tags@ == sp_add_tags(self.tags@, other.tags@),
    {
        let name: &str = "Combined";
        let mut combined = SiteSummary {
            name: name.to_owned(),
            questions: self.questions + other.questions,
            words: self.words + other.words,
            tags: copy_tags(&self.tags),
        };
        let n = other.tags.len();
        let mut i: usize = 0;
        proof {
            assert(other.tags@.skip(0) =~= other.tags@);
            lemma_sums_nonneg(self.tags@);
            lemma_sums_nonneg(other.tags@);
        }
        while i < n
            invariant
                i <= n,
                n == other.tags@.len(),
                combined.wf(),
                combined.name@ == "Combined"@,
                combined.questions == self.questions + other.questions,
                combined.words == self.words + other.words,
                sum_questions(self.tags@) + sum_questions(other.tags@) <= u32::MAX,
                sum_words(self.tags@) + sum_words(other.tags@) <= u32::MAX,
                sum_questions(combined.tags@) + sum_questions(other.tags@.skip(i as int))
                    == sum_questions(self.tags@) + sum_questions(other.tags@),
                sum_words(combined.tags@) + sum_words(other.tags@.skip(i as int)) == sum_words(
                    self.tags@,
                ) + sum_words(other.tags@),
                sp_add_tags(combined.tags@, other.tags@.skip(i as int)) == sp_add_tags(
                    self.tags@,
                    other.tags@,
                ),
            decreases n - i,
        {
            let ghost tail = other.tags@.skip(i as int);
            proof {
                lemma_sum_drop_first(tail);
                lemma_sums_nonneg(tail.drop_first());
                lemma_sums_nonneg(combined.tags@);
                assert(tail[0] == other.tags@[i as int]);
                assert(tail.drop_first() =~= other.tags@.skip(i + 1));
            }
            let t = copy_tag(&other.tags[i]);
            proof {
                if has_tag(combined.tags@, t.name@) {
                    lemma_entry_le_sum(combined.tags@, tag_idx(combined.tags@, t.name@));
                }
            }
            combined.merge_tag(t);
            i = i + 1;
        }
        proof {
            assert(other.tags@.skip(n as int) =~= Seq::<TagSummary>::empty());
        }
        combined
    }

    /// Adds a tag to the breakdown, merging it into a same-named one.  The
    /// site's own counts stay: a question carries several tags, so it is
    /// counted once, through `add_question`.
    pub fn add_tag(&mut self, tag: TagSummary)
        requires
            old(self).wf(),
            has_tag(old(self).tags@, tag.name@) ==> old(self).tags@[tag_idx(
                old(self).tags@,
                tag.name@,
            )].questions + tag.questions <= u32::MAX && old(self).tags@[tag_idx(
                old(self).tags@,
                tag.name@,
            )].words + tag.words <= u32::MAX,
        ensures
            final(self).wf(),
            final(self).tags@ == sp_add_tag(old(self).tags@, tag),
            final(self).name@ == old(self).name@,
            final(self).questions == old(self).questions,
            final(self).words == old(self).words,
    {
        self.merge_tag(tag);
    }

    /// Counts one more question of the given word count.
    pub fn add_question(&mut self, word_count: u32)
        requires
            old(self).questions + 1 <= u32::MAX,
            old(self).words + word_count <= u32::MAX,
        ensures
            final(self).questions == old(self).questions + 1,
            final(self).words == old(self).words + word_count,
            final(self).name@ == old(self).name@,
            final(self).tags@ == old(self).tags@,
    {
        self.questions = self.questions + 1;
        self.words = self.words + word_count;
    }

    /// The `n` chattiest tags, highest score first: a prefix of some
    /// descending reordering of the whole breakdown.
    pub fn n_chattiest(&self, n: usize) -> (r: Vec<TagSummary>)
        ensures
            r@.len() == (if n <= self.tags@.len() {
                n as int
            } else {
                self.tags@.len() as int
            }),
            sorted_desc(r@),
            exists|full: Seq<TagSummary>|
                {
                    &&& full.to_multiset() == self.tags@.to_multiset()
                    &&& sorted_desc(full)
                    &&& r@ == full.take(r@.len() as int)
                },
    {
        let mut sorted = sort_desc(copy_tags(&self.tags));
        let ghost full = sorted@;
        sorted.truncate(n);
        proof {
            if n <= full.len() {
                assert(sorted@ == full.take(n as int));
                assert forall|a: int, b: int| 0 <= a <= b < sorted@.len() implies chat_le(
                    sorted@[b].questions,
                    sorted@[b].words,
                    sorted@[a].questions,
                    sorted@[a].words,
                ) by {
                    assert(sorted@[a] == full[a]);
                    assert(sorted@[b] == full[b]);
                }
            } else {
                assert(sorted@ == full);
                assert(sorted@ =~= full.take(sorted@.len() as int));
            }
        }
        sorted
    }
}

/// The two global rankings.
#[derive(Debug)]
pub struct Totals {
    /// The chattiest site names, highest score first.
    pub chatty_sites: Vec<String>,
    /// The chattiest tag names over all sites, highest score first.
    pub chatty_tags: Vec<String>,
}

/// How many names each global ranking keeps.
pub const N_CHATTY: usize = 10;

/// The full report: every site, the tags aggregated over all sites, and the
/// two rankings.
#[derive(Debug)]
pub struct FullSummary {
    /// Student identifier carried into the report.
    pub padron: u32,
    /// Summary of each site.
    pub sites: Vec<SiteSummary>,
    /// Summary of each tag aggregated through all sites.
    pub tags: Vec<TagSummary>,
    /// The global rankings.
    pub totals: Totals,
}

/// Each site reduced to its name and counts, so sites rank the same way tags
/// do.
pub open spec fn sites_as_tags(s: Seq<SiteSummary>) -> Seq<TagSummary> {
    s.map_values(
        |x: SiteSummary| TagSummary { name: x.name, questions: x.questions, words: x.words },
    )
}

impl FullSummary {
    /// Builds the report: the aggregated tags come from `total`, and each
    /// ranking holds the first names of some descending reordering.
    pub fn new(padron: u32, sites: Vec<SiteSummary>, total: &SiteSummary) -> (r: FullSummary)
        ensures
            r.padron == padron,
            r.sites@ == sites@,
            r.tags@ == total.tags@,
            r.totals.chatty_tags@.len() == (if N_CHATTY as int <= total.tags@.len() {
                N_CHATTY as int
            } else {
                total.tags@.len() as int
            }),
            exists|ranked: Seq<TagSummary>|
                {
                    &&& ranked.to_multiset() == total.tags@.to_multiset()
                    &&& sorted_desc(ranked)
                    &&& forall|k: int|
                        0 <= k < r.totals.chatty_tags@.len() ==> (#[trigger] r.totals.chatty_tags@[k])@
                            == ranked[k].name@
                },
            r.totals.chatty_sites@.len() == (if N_CHATTY as int <= sites@.len() {
                N_CHATTY as int
            } else {
                sites@.len() as int
            }),
            exists|ranked: Seq<TagSummary>|
                {
                    &&& ranked.to_multiset() == sites_as_tags(sites@).to_multiset()
                    &&& sorted_desc(ranked)
                    &&& forall|k: int|
                        0 <= k < r.totals.chatty_sites@.len() ==> (#[trigger] r.totals.chatty_sites@[k])@
                            == ranked[k].name@
                },
    {
        let chatty = total.n_chattiest(N_CHATTY);
        let chatty_tags = names_of(&chatty);
        proof {
            let full = choose|full: Seq<TagSummary>|
                {
                    &&& full.to_multiset() == total.tags@.to_multiset()
                    &&& sorted_desc(full)
                    &&& chatty@ == full.take(chatty@.len() as int)
                };
            full.to_multiset_ensures();
            total.tags@.to_multiset_ensures();
            assert(full.len() == total.tags@.len());
            assert forall|k: int|
                0 <= k < chatty_tags@.len() implies (#[trigger] chatty_tags@[k])@
                == full[k].name@ by {
                assert(chatty@[k] == full.take(chatty@.len() as int)[k]);
            }
        }

        let n = sites.len();
        let mut site_rows: Vec<TagSummary> = Vec::new();
        let mut i: usize = 0;
        while i < n
            invariant
                i <= n,
                n == sites@.len(),
                site_rows@.len() == i,
                forall|j: int| 0 <= j < i ==> site_rows@[j] == sites_as_tags(sites@)[j],
            decreases n - i,
        {
            let s = &sites[i];
            site_rows.push(
                TagSummary { name: s.name.clone(), questions: s.questions, words: s.words },
            );
            i = i + 1;
        }
        proof {
            assert(site_rows@ =~= sites_as_tags(sites@));
        }
        let mut ranked_sites = sort_desc(site_rows);
        let ghost full_sites = ranked_sites@;
        ranked_sites.truncate(N_CHATTY);
        proof {
            if N_CHATTY <= full_sites.len() {
                assert(ranked_sites@ == full_sites.take(N_CHATTY as int));
            } else {
                assert(ranked_sites@ == full_sites);
                assert(ranked_sites@ =~= full_sites.take(ranked_sites@.len() as int));
            }
        }
        let chatty_sites = names_of(&ranked_sites);
        proof {
            assert forall|k: int|
                0 <= k < chatty_sites@.len() implies (#[trigger] chatty_sites@[k])@
                == full_sites[k].name@ by {
                assert(ranked_sites@[k] == full_sites.take(ranked_sites@.len() as int)[k]);
            }
        }

        FullSummary {
            padron,
            sites,
            tags: copy_tags(&total.tags),
            totals: Totals { chatty_sites, chatty_tags },
        }
    }
}

/// The names of a tag list, in order.
fn names_of(v: &Vec<TagSummary>) -> (r: Vec<String>)
    ensures
        r@.len() == v@.len(),
        forall|k: int| 0 <= k < r@.len() ==> (#[trigger] r@[k])@ == v@[k].name@,
{
    let n = v.len();
    let mut r: Vec<String> = Vec::new();
    let mut i: usize = 0;
    while i < n
        invariant
            i <= n,
            n == v@.len(),
            r@.len() == i,
            forall|k: int| 0 <= k < i ==> (#[trigger] r@[k])@ == v@[k].name@,
        decreases n - i,
    {
        r.push(v[i].name.clone());
        i = i + 1;
    }
    r
}

/// The sums are never negative.
proof fn lemma_sums_nonneg(s: Seq<TagSummary>)
    ensures
        sum_questions(s) >= 0,
        sum_words(s) >= 0,
    decreases s.len(),
{
    if s.len() > 0 {
        lemma_sums_nonneg(s.drop_last());
    }
}

} // verus!
