//! Translators of operators, registered by the type of the operator.

use crate::datum::{on_device, DatumType};
use crate::fact::TypedFact;
use vstd::prelude::*;

verus! {

/// A translator for the operators of one type. It makes an operator of the device, declines,
/// or fails.
#[derive(Debug, Clone, Copy)]
pub struct MetalOpTranslator<TryMake> {
    pub type_id: u64,
    pub try_make: TryMake,
}

/// Tensors of all the facts can live on the device.
pub open spec fn all_supported(facts: Seq<TypedFact>) -> bool {
    forall|i: int| 0 <= i < facts.len() ==> on_device((#[trigger] facts[i])@.datum_type)
}

/// Whether tensors of all the facts can live on the device.
pub fn all_supported_on_device(facts: &Vec<TypedFact>) -> (r: bool)
    ensures
        r == all_supported(facts@),
        r == (forall|i: int|
            0 <= i < facts@.len() ==> ({
                let dt = (#[trigger] facts@[i]).datum_type;
                !(dt == DatumType::F64 || dt == DatumType::TDim || dt == DatumType::Blob || dt
                    == DatumType::String || dt is QI8 || dt is QU8 || dt is QI32)
            })),
{
    let mut i: usize = 0;
    while i < facts.len()
        invariant
            i <= facts@.len(),
            forall|j: int| 0 <= j < i ==> on_device((#[trigger] facts@[j])@.datum_type),
        decreases facts@.len() - i,
    {
        if !facts[i].datum_type.is_supported_on_device() {
            assert(!on_device(facts@[i as int]@.datum_type));
            return false;
        }
        i += 1;
    }
    true
}

/// The translators registered for a type of operator, in the order of registration.
pub open spec fn registered<TryMake>(
    translators: Seq<MetalOpTranslator<TryMake>>,
    type_id: u64,
) -> Seq<MetalOpTranslator<TryMake>> {
    translators.filter(|t: MetalOpTranslator<TryMake>| t.type_id == type_id)
}

/// The answer is neither an operator nor an error.
pub open spec fn declined<Op, Error>(answer: Result<Option<Op>, Error>) -> bool {
    answer is Ok && answer->Ok_0 is None
}

/// `r` is what the first of the translators that does not decline answers, and `answers` are
/// the answers up to it; or all of them decline.
pub open spec fn first_answer<Source, Node, Op, Error, TryMake>(
    translators: Seq<MetalOpTranslator<TryMake>>,
    source: &Source,
    node: &Node,
    answers: Seq<Result<Option<Op>, Error>>,
    r: Result<Option<Op>, Error>,
) -> bool where TryMake: Fn(&Source, &Node) -> Result<Option<Op>, Error> {
    &&& answers.len() <= translators.len()
    &&& forall|i: int|
        0 <= i < answers.len() ==> call_ensures(
            translators[i].try_make,
            (source, node),
            #[trigger] answers[i],
        )
    &&& forall|i: int| 0 <= i < answers.len() - 1 ==> declined(#[trigger] answers[i])
    &&& if declined(r) {
        &&& answers.len() == translators.len()
        &&& answers.len() > 0 ==> declined(answers.last())
    } else {
        answers.len() > 0 && answers.last() == r
    }
}

/// `r` is what the translators of the type answer: all of them decline, or the first of them that
/// does not decline answers so.
pub open spec fn answered<Source, Node, Op, Error, TryMake>(
    translators: Seq<MetalOpTranslator<TryMake>>,
    type_id: u64,
    source: &Source,
    node: &Node,
    r: Result<Option<Op>, Error>,
) -> bool where TryMake: Fn(&Source, &Node) -> Result<Option<Op>, Error> {
    exists|n: int|
        {
            &&& 0 <= n <= translators.len()
            &&& #[trigger] decline_before(translators, type_id, source, node, n, r)
            &&& if n == translators.len() {
                r == Ok::<Option<Op>, Error>(None)
            } else {
                &&& translators[n].type_id == type_id
                &&& r != Ok::<Option<Op>, Error>(None)
                &&& call_ensures(translators[n].try_make, (source, node), r)
            }
        }
}

/// The translators of the type among the first `n` decline. The answer `r` tells what an answer
/// is.
pub open spec fn decline_before<Source, Node, Op, Error, TryMake>(
    translators: Seq<MetalOpTranslator<TryMake>>,
    type_id: u64,
    source: &Source,
    node: &Node,
    n: int,
    r: Result<Option<Op>, Error>,
) -> bool where TryMake: Fn(&Source, &Node) -> Result<Option<Op>, Error> {
    forall|i: int|
        0 <= i < n && (#[trigger] translators[i]).type_id == type_id ==> call_ensures(
            translators[i].try_make,
            (source, node),
            Ok::<Option<Op>, Error>(None),
        )
}

/// The operator of the device for a node, if there is one: none if an input cannot live on
/// the device; else a plain copy, if that is what it is; else what the first translator that
/// does not decline makes. What fails first is the error.
pub fn try_make_metal_op<Source, Node, Op, Error, CopyBased, TryMake>(
    source: &Source,
    node: &Node,
    type_id: u64,
    input_facts: &Vec<TypedFact>,
    try_make_copy_based_op: CopyBased,
    translators: &Vec<MetalOpTranslator<TryMake>>,
) -> (r: Result<Option<Op>, Error>) where
    CopyBased: FnOnce(&Source, &Node) -> Result<Option<Op>, Error>,
    TryMake: Fn(&Source, &Node) -> Result<Option<Op>, Error>,

    requires
        call_requires(try_make_copy_based_op, (source, node)),
        forall|i: int|
            0 <= i < translators@.len() ==> call_requires(
                (#[trigger] translators@[i]).try_make,
                (source, node),
            ),
    ensures
        !all_supported(input_facts@) ==> declined(r),
        all_supported(input_facts@) ==> exists|copy: Result<Option<Op>, Error>|
            #[trigger] call_ensures(try_make_copy_based_op, (source, node), copy) && if declined(
                copy,
            ) {
                exists|answers: Seq<Result<Option<Op>, Error>>|
                    #[trigger] first_answer(
                        registered(translators@, type_id),
                        source,
                        node,
                        answers,
                        r,
                    )
            } else {
                r == copy
            },
        ({
            let lives_there = |dt: DatumType|
                !(dt == DatumType::F64 || dt == DatumType::TDim || dt == DatumType::Blob || dt
                    == DatumType::String || dt is QI8 || dt is QU8 || dt is QI32);
            let all = forall|i: int|
                0 <= i < input_facts@.len() ==> lives_there((#[trigger] input_facts@[i]).datum_type);
            &&& !all ==> r == Ok::<Option<Op>, Error>(None)
            &&& all ==> exists|copy: Result<Option<Op>, Error>|
                #[trigger] call_ensures(try_make_copy_based_op, (source, node), copy) && if copy
                    == Ok::<Option<Op>, Error>(None) {
                    answered(translators@, type_id, source, node, r)
                } else {
                    r == copy
                }
        }),
{
    if !all_supported_on_device(input_facts) {
        return Ok(None);
    }
    let copy = try_make_copy_based_op(source, node);
    let ghost asked = copy;
    match copy {
        Ok(None) => {},
        copy => return copy,
    }
    let ghost mut answers: Seq<Result<Option<Op>, Error>> = Seq::empty();
    let ghost mine = |t: MetalOpTranslator<TryMake>| t.type_id == type_id;
    let mut i: usize = 0;
    proof {
        reveal(Seq::filter);
    }
    while i < translators.len()
        invariant
            i <= translators@.len(),
            all_supported(input_facts@),
            call_ensures(try_make_copy_based_op, (source, node), asked),
            declined(asked),
            mine == (|t: MetalOpTranslator<TryMake>| t.type_id == type_id),
            registered(translators@, type_id) == translators@.filter(mine),
            forall|i: int|
                0 <= i < translators@.len() ==> call_requires(
                    (#[trigger] translators@[i]).try_make,
                    (source, node),
                ),
            answers.len() == translators@.take(i as int).filter(mine).len(),
            forall|k: int|
                0 <= k < answers.len() ==> call_ensures(
                    translators@.take(i as int).filter(mine)[k].try_make,
                    (source, node),
                    #[trigger] answers[k],
                ),
            forall|k: int| 0 <= k < answers.len() ==> declined(#[trigger] answers[k]),
            forall|k: int|
                0 <= k < i && (#[trigger] translators@[k]).type_id == type_id ==> call_ensures(
                    translators@[k].try_make,
                    (source, node),
                    Ok::<Option<Op>, Error>(None),
                ),
        decreases translators@.len() - i,
    {
        proof {
            reveal(Seq::filter);
            assert(translators@.take(i + 1).drop_last() =~= translators@.take(i as int));
        }
        let ghost before = translators@.take(i as int).filter(mine);
        let ghost next = translators@.take(i + 1).filter(mine);
        if translators[i].type_id == type_id {
            assert(next == before.push(translators@[i as int]));
            let answer = (translators[i].try_make)(source, node);
            let ghost given = answers.push(answer);
            match answer {
                Ok(None) => {
                    proof {
                        answers = given;
                    }
                },
                answer => {
                    proof {
                        lemma_filter_prefix(translators@, mine, i + 1);
                        let all = translators@.filter(mine);
                        assert forall|k: int| 0 <= k < given.len() implies call_ensures(
                            all[k].try_make,
                            (source, node),
                            #[trigger] given[k],
                        ) by {
                            assert(all[k] == next[k]);
                            if k < answers.len() {
                                assert(given[k] == answers[k]);
                                assert(next[k] == before[k]);
                            }
                        }
                        assert(first_answer(
                            registered(translators@, type_id),
                            source,
                            node,
                            given,
                            answer,
                        ));
                        assert(decline_before(translators@, type_id, source, node, i as int, answer));
                        assert(answered(translators@, type_id, source, node, answer));
                    }
                    return answer;
                },
            }
        } else {
            assert(next == before);
        }
        i += 1;
    }
    assert(translators@.take(i as int) =~= translators@);
    let r = Ok(None);
    assert(first_answer(registered(translators@, type_id), source, node, answers, r));
    assert(decline_before(translators@, type_id, source, node, i as int, r));
    assert(answered(translators@, type_id, source, node, r));
    r
}

/// What is picked out of a prefix comes first in what is picked out of the whole.
proof fn lemma_filter_prefix<A>(s: Seq<A>, pred: spec_fn(A) -> bool, n: int)
    requires
        0 <= n <= s.len(),
    ensures
        s.take(n).filter(pred).len() <= s.filter(pred).len(),
        forall|k: int|
            0 <= k < s.take(n).filter(pred).len() ==> #[trigger] s.take(n).filter(pred)[k]
                == s.filter(pred)[k],
    decreases s.len(),
{
    reveal(Seq::filter);
    if n == s.len() {
        assert(s.take(n) =~= s);
    } else {
        lemma_filter_prefix(s.drop_last(), pred, n);
        assert(s.drop_last().take(n) =~= s.take(n));
    }
}

/// A translator of the type that never declines is never passed over: the answer is that of it or
/// of one before it, whatever stands behind.
pub proof fn law_no_answer_is_passed_over<Source, Node, Op, Error, TryMake>(
    translators: Seq<MetalOpTranslator<TryMake>>,
    type_id: u64,
    source: &Source,
    node: &Node,
    r: Result<Option<Op>, Error>,
    m: int,
) where TryMake: Fn(&Source, &Node) -> Result<Option<Op>, Error>
    requires
        answered(translators, type_id, source, node, r),
        0 <= m < translators.len(),
        translators[m].type_id == type_id,
        !call_ensures(translators[m].try_make, (source, node), Ok::<Option<Op>, Error>(None)),
    ensures
        r != Ok::<Option<Op>, Error>(None),
        exists|n: int|
            0 <= n <= m && (#[trigger] translators[n]).type_id == type_id && call_ensures(
                translators[n].try_make,
                (source, node),
                r,
            ),
{
    let n = choose|n: int|
        {
            &&& 0 <= n <= translators.len()
            &&& #[trigger] decline_before(translators, type_id, source, node, n, r)
            &&& if n == translators.len() {
                r == Ok::<Option<Op>, Error>(None)
            } else {
                &&& translators[n].type_id == type_id
                &&& r != Ok::<Option<Op>, Error>(None)
                &&& call_ensures(translators[n].try_make, (source, node), r)
            }
        };
    assert(decline_before(translators, type_id, source, node, n, r));
    if m < n {
        assert(translators[m].type_id == type_id);
    }
}

/// An operator or an error is what a translator of the type answers, and none of another type; and
/// if nothing comes of it, every translator of the type declines.
pub proof fn law_answers_are_of_the_type<Source, Node, Op, Error, TryMake>(
    translators: Seq<MetalOpTranslator<TryMake>>,
    type_id: u64,
    source: &Source,
    node: &Node,
    r: Result<Option<Op>, Error>,
    m: int,
) where TryMake: Fn(&Source, &Node) -> Result<Option<Op>, Error>
    requires
        answered(translators, type_id, source, node, r),
        0 <= m < translators.len(),
        translators[m].type_id == type_id,
    ensures
        r == Ok::<Option<Op>, Error>(None) ==> call_ensures(
            translators[m].try_make,
            (source, node),
            r,
        ),
        r != Ok::<Option<Op>, Error>(None) ==> exists|n: int|
            0 <= n < translators.len() && (#[trigger] translators[n]).type_id == type_id
                && call_ensures(translators[n].try_make, (source, node), r),
{
    let n = choose|n: int|
        {
            &&& 0 <= n <= translators.len()
            &&& #[trigger] decline_before(translators, type_id, source, node, n, r)
            &&& if n == translators.len() {
                r == Ok::<Option<Op>, Error>(None)
            } else {
                &&& translators[n].type_id == type_id
                &&& r != Ok::<Option<Op>, Error>(None)
                &&& call_ensures(translators[n].try_make, (source, node), r)
            }
        };
    assert(decline_before(translators, type_id, source, node, n, r));
}

} // verus!
