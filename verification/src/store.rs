//! The in-memory record store, loaded once from the embedded payload.

use vstd::prelude::*;
use vstd::pervasive::unreached;

use crate::json;
use crate::json::render_payload;
use crate::question::Question;
use crate::question::QuestionId;
use crate::question::ids_unique;
use crate::question::ids_valid;

verus! {

/// There is a record with identifier `k` in the sequence.
pub open spec fn spec_has_id(qs: Seq<Question>, k: Seq<char>) -> bool {
    exists|i: int| 0 <= i < qs.len() && qs[i].id@ == k
}

/// An index of a record with identifier `k` in the sequence.
pub open spec fn spec_index_of_id(qs: Seq<Question>, k: Seq<char>) -> int {
    choose|i: int| 0 <= i < qs.len() && qs[i].id@ == k
}

/// Under unique identifiers, the index of a record's identifier is the
/// record's own index.
proof fn lemma_index_of_id(qs: Seq<Question>, k: Seq<char>, a: int)
    requires
        ids_unique(qs),
        0 <= a < qs.len(),
        qs[a].id@ == k,
    ensures
        spec_has_id(qs, k),
        spec_index_of_id(qs, k) == a,
{
    assert(spec_has_id(qs, k));
    let b = spec_index_of_id(qs, k);
    assert(0 <= b < qs.len() && qs[b].id@ == k);
}

/// The sequence as a mapping from identifier text to record.
pub open spec fn seq_id_map(qs: Seq<Question>) -> Map<Seq<char>, Question> {
    Map::new(|k: Seq<char>| spec_has_id(qs, k), |k: Seq<char>| qs[spec_index_of_id(qs, k)])
}

/// Replacing the one record that carries `q.id` by `q` inserts `q` into the
/// sequence's mapping and keeps the sequence well formed.
proof fn lemma_replace_entry(orig: Seq<Question>, q: Question, i: int)
    requires
        ids_unique(orig),
        ids_valid(orig),
        0 <= i < orig.len(),
        orig[i].id@ == q.id@,
        q.id@.len() > 0,
    ensures
        ids_unique(orig.update(i, q)),
        ids_valid(orig.update(i, q)),
        seq_id_map(orig.update(i, q)) == seq_id_map(orig).insert(q.id@, q),
{
    let ns = orig.update(i, q);
    assert(forall|a: int| 0 <= a < ns.len() ==> ns[a].id@ == orig[a].id@);
    assert(ids_unique(ns));
    assert(ids_valid(ns));
    assert(seq_id_map(ns) =~= seq_id_map(orig).insert(q.id@, q)) by {
        assert forall|k: Seq<char>| #[trigger] spec_has_id(ns, k) implies spec_has_id(orig, k) by {
            let a = choose|a: int| 0 <= a < ns.len() && ns[a].id@ == k;
            assert(orig[a].id@ == k);
        };
        assert forall|k: Seq<char>| #[trigger] spec_has_id(orig, k) implies spec_has_id(ns, k) by {
            let a = choose|a: int| 0 <= a < orig.len() && orig[a].id@ == k;
            assert(ns[a].id@ == k);
        };
        assert forall|k: Seq<char>|
            #[trigger] spec_has_id(ns, k) && k != q.id@ implies ns[spec_index_of_id(ns, k)]
            == orig[spec_index_of_id(orig, k)] by {
            let a = spec_index_of_id(ns, k);
            assert(0 <= a < ns.len() && ns[a].id@ == k);
            assert(a != i);
            lemma_index_of_id(orig, k, a);
        };
        assert(ns[i] == q);
        lemma_index_of_id(ns, q.id@, i);
    };
}

/// Appending a record whose identifier no record carries inserts it into the
/// sequence's mapping and keeps the sequence well formed.
proof fn lemma_append_entry(orig: Seq<Question>, q: Question)
    requires
        ids_unique(orig),
        ids_valid(orig),
        q.id@.len() > 0,
        forall|a: int| 0 <= a < orig.len() ==> orig[a].id@ != q.id@,
    ensures
        ids_unique(orig.push(q)),
        ids_valid(orig.push(q)),
        seq_id_map(orig.push(q)) == seq_id_map(orig).insert(q.id@, q),
{
    let ns = orig.push(q);
    assert(forall|a: int| 0 <= a < orig.len() ==> ns[a] == orig[a]);
    assert(ns[orig.len() as int] == q);
    assert(ids_unique(ns));
    assert(ids_valid(ns));
    assert(seq_id_map(ns) =~= seq_id_map(orig).insert(q.id@, q)) by {
        assert forall|k: Seq<char>|
            #[trigger] spec_has_id(ns, k) && k != q.id@ implies spec_has_id(orig, k) by {
            let a = choose|a: int| 0 <= a < ns.len() && ns[a].id@ == k;
            assert(a != orig.len());
            assert(orig[a].id@ == k);
        };
        assert forall|k: Seq<char>| #[trigger] spec_has_id(orig, k) implies spec_has_id(ns, k) by {
            let a = choose|a: int| 0 <= a < orig.len() && orig[a].id@ == k;
            assert(ns[a].id@ == k);
        };
        assert(spec_has_id(ns, q.id@));
        assert forall|k: Seq<char>|
            #[trigger] spec_has_id(ns, k) && k != q.id@ implies ns[spec_index_of_id(ns, k)]
            == orig[spec_index_of_id(orig, k)] by {
            let a = spec_index_of_id(ns, k);
            assert(0 <= a < ns.len() && ns[a].id@ == k);
            assert(a != orig.len());
            lemma_index_of_id(orig, k, a);
        };
        lemma_index_of_id(ns, q.id@, orig.len() as int);
    };
}

/// The collection of question records, keyed by identifier.
#[derive(Clone, Debug)]
pub struct Store {
    questions: Vec<Question>,
}

impl View for Store {
    type V = Seq<Question>;

    closed spec fn view(&self) -> Seq<Question> {
        self.questions@
    }
}

impl Store {
    /// The store's records carry valid, pairwise distinct identifiers.
    pub open spec fn wf(&self) -> bool {
        ids_unique(self@) && ids_valid(self@)
    }

    /// The store as a mapping from identifier text to record.
    pub open spec fn id_map(&self) -> Map<Seq<char>, Question> {
        seq_id_map(self@)
    }

    /// Loads the embedded payload. The load cannot fail: the payload is the
    /// canonical rendering of one record, and the loader is proven to accept
    /// it. The store comes out well formed, and the payload is exactly the
    /// canonical rendering of its records.
    pub fn new() -> (r: Store)
        ensures
            r.wf(),
            spec_embedded_payload() == render_payload(r@),
    {
        proof {
            reveal_strlit("1");
        }
        let id = QuestionId::from_str("1").unwrap();
        let q = Question::new(id, "T".to_owned(), "C".to_owned(), None);
        let payload = embedded_payload();
        proof {
            reveal_strlit("T");
            reveal_strlit("C");
            reveal_strlit("{");
            reveal_strlit("}");
            reveal_strlit(":");
            reveal_strlit("\"");
            reveal_strlit("{\"id\":");
            reveal_strlit(",\"title\":");
            reveal_strlit(",\"content\":");
            reveal_strlit(",\"tags\":");
            reveal_strlit("null");
            reveal_strlit("{\"1\":{\"id\":\"1\",\"title\":\"T\",\"content\":\"C\",\"tags\":null}}");
            assert(json::plain_untagged(q));
            assert(render_payload(seq![q]) =~= spec_embedded_payload());
            assert(json::single_plain_payload(payload@, q));
        }
        match json::parse_payload(payload) {
            Ok(questions) => Store { questions },
            Err(_) => unreached(),
        }
    }

    /// Every record currently held, in the store's order.
    pub fn snapshot_all(&self) -> (r: &Vec<Question>)
        ensures
            r@ == self@,
    {
        &self.questions
    }

    /// Inserts the record under its own identifier, replacing any record
    /// that already carries it: the store's mapping gains exactly that one
    /// entry.
    #[verifier::loop_isolation(false)]
    pub fn add_question(self, question: Question) -> (r: Store)
        requires
            self.wf(),
            question.id@.len() > 0,
        ensures
            r.wf(),
            r.id_map() == self.id_map().insert(question.id@, question),
    {
        let ghost orig = self@;
        let ghost q = question;
        let mut questions = self.questions;
        let n = questions.len();
        let mut i: usize = 0;
        while i < n
            invariant
                n == questions@.len(),
                i <= n,
                questions@ == orig,
                forall|a: int| 0 <= a < i ==> questions@[a].id@ != q.id@,
            decreases n - i,
        {
            if json::str_eq(questions[i].id.as_str(), question.id.as_str()) {
                questions[i] = question;
                let r = Store { questions };
                proof {
                    assert(r@ == orig.update(i as int, q));
                    lemma_replace_entry(orig, q, i as int);
                }
                return r;
            }
            i = i + 1;
        }
        questions.push(question);
        let r = Store { questions };
        proof {
            assert(r@ == orig.push(q));
            lemma_append_entry(orig, q);
        }
        r
    }
}

/// The fixed startup payload embedded in the build.
pub open spec fn spec_embedded_payload() -> Seq<char> {
    "{\"1\":{\"id\":\"1\",\"title\":\"T\",\"content\":\"C\",\"tags\":null}}"@
}

/// The fixed startup payload embedded in the build.
pub fn embedded_payload() -> (r: &'static str)
    ensures
        r@ == spec_embedded_payload(),
{
    "{\"1\":{\"id\":\"1\",\"title\":\"T\",\"content\":\"C\",\"tags\":null}}"
}

/// Key/value consistency: every key of the store's mapping is the
/// identifier of the record it maps to.
pub proof fn lemma_key_value_consistency(s: &Store)
    ensures
        forall|k: Seq<char>| #[trigger] s.id_map().dom().contains(k) ==> s.id_map()[k].id@ == k,
{
    assert forall|k: Seq<char>| #[trigger] s.id_map().dom().contains(k) implies s.id_map()[k].id@
        == k by {
        assert(spec_has_id(s@, k));
        let i = spec_index_of_id(s@, k);
        assert(0 <= i < s@.len() && s@[i].id@ == k);
    }
}

/// Load correctness: a store that loaded a payload holds the records that
/// payload renders, verbatim and as many as the payload has entries.
pub proof fn lemma_load_correctness(st: Store, payload: Seq<char>, qs: Seq<Question>)
    requires
        payload == render_payload(qs),
        st@ == qs,
    ensures
        st@.len() == qs.len(),
        forall|i: int| 0 <= i < qs.len() ==> st@[i] == qs[i],
{
}

} // verus!
