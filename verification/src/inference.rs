//! What the models say of a frame.

use std::path::PathBuf;
use std::sync::Arc;
use vstd::prelude::*;

verus! {

/// The models to run.
#[derive(Debug)]
pub struct InferenceConfig {
    pub models: Vec<InferenceModelConfig>,
}

/// A model, and the file that it is loaded from.
#[derive(Debug)]
pub struct InferenceModelConfig {
    pub name: String,
    pub onnx_path: PathBuf,
}

/// What one model says of a frame.
#[derive(Clone, Debug)]
pub struct InferenceResult {
    pub model: String,
    pub outputs: Vec<InferenceOutput>,
}

/// One output of a model. The numbers are single-precision floats, each given
/// by its bits.
#[derive(Clone, Debug)]
pub struct InferenceOutput {
    pub key: String,
    pub values: Vec<u32>,
    pub values_softmax: Vec<u32>,
}

/// One output as the session hands it over. The values are missing where they
/// are no floats.
#[derive(Clone, Debug)]
pub struct SessionOutput {
    pub key: String,
    pub values: Option<OutputValues>,
}

/// The values of an output, and their softmax, as the bits of floats.
#[derive(Clone, Debug)]
pub struct OutputValues {
    pub values: Vec<u32>,
    pub softmax: Vec<u32>,
}

/// The models that are loaded, by name.
#[derive(Debug)]
pub struct InferenceService {
    pub models: Vec<String>,
}

/// The output of a session, where it consists of floats.
pub open spec fn output_of(raw: SessionOutput) -> Option<InferenceOutput> {
    match raw.values {
        Some(v) => Some(
            InferenceOutput { key: raw.key, values: v.values, values_softmax: v.softmax },
        ),
        None => None,
    }
}

/// `result` is what a model of the given name says by the given outputs.
pub open spec fn is_result_of(
    result: InferenceResult,
    name: Seq<char>,
    outputs: Seq<SessionOutput>,
) -> bool {
    &&& result.model@ == name
    &&& result.outputs@ == outputs.filter_map(|raw: SessionOutput| output_of(raw))
}

/// The models among the first `n` whose session ran.
pub open spec fn models_that_ran(sessions: Seq<Option<Vec<SessionOutput>>>, n: int) -> Seq<int>
    decreases n,
{
    if n <= 0 {
        Seq::empty()
    } else if sessions[n - 1] is Some {
        models_that_ran(sessions, n - 1).push(n - 1)
    } else {
        models_that_ran(sessions, n - 1)
    }
}

fn collect_outputs(raws: Vec<SessionOutput>) -> (r: Vec<InferenceOutput>)
    ensures
        r@ == raws@.filter_map(|raw: SessionOutput| output_of(raw)),
{
    let ghost f = |raw: SessionOutput| output_of(raw);
    let mut outputs: Vec<InferenceOutput> = Vec::new();
    for raw in it: raws
        invariant
            it.seq() == raws@,
            f == (|raw: SessionOutput| output_of(raw)),
            outputs@ == raws@.take(it.index() as int).filter_map(f),
    {
        proof {
            raws@.lemma_filter_map_take_succ(f, it.index() as int);
        }
        match raw.values {
            Some(v) => {
                outputs.push(
                    InferenceOutput { key: raw.key, values: v.values, values_softmax: v.softmax },
                );
            },
            None => {},
        }
    }
    assert(raws@.take(raws@.len() as int) =~= raws@);
    outputs
}

/// The names of some models.
pub open spec fn model_names(models: Seq<InferenceModelConfig>) -> Seq<Seq<char>> {
    models.map_values(|m: InferenceModelConfig| m.name@)
}

impl InferenceService {
    /// The models of a configuration, in its order.
    pub fn new(config: &InferenceConfig) -> (r: Arc<InferenceService>)
        ensures
            r.models@.map_values(|name: String| name@) == model_names(config.models@),
    {
        let mut models: Vec<String> = Vec::new();
        let mut n: usize = 0;
        while n < config.models.len()
            invariant
                n <= config.models@.len(),
                models@.len() == n,
                forall|i: int|
                    0 <= i < n ==> (#[trigger] models@[i])@ == config.models@[i].name@,
            decreases config.models.len() - n,
        {
            models.push(config.models[n].name.clone());
            n = n + 1;
        }
        assert(models@.map_values(|name: String| name@) =~= model_names(config.models@));
        Arc::new(InferenceService { models })
    }

    /// Gathers what the models say, in the order of the models. `sessions` holds
    /// what came of running each of them; one that failed is left out, and so is
    /// an output that does not consist of floats.
    pub fn run(&self, sessions: Vec<Option<Vec<SessionOutput>>>) -> (r: Vec<InferenceResult>)
        requires
            sessions@.len() == self.models@.len(),
        ensures
            r@.len() == models_that_ran(sessions@, sessions@.len() as int).len(),
            forall|i: int|
                0 <= i < r@.len() ==> {
                    let m = models_that_ran(sessions@, sessions@.len() as int)[i];
                    is_result_of(#[trigger] r@[i], self.models@[m]@, sessions@[m]->0@)
                },
    {
        let mut results: Vec<InferenceResult> = Vec::new();
        let count: usize = self.models.len();
        let mut n: usize = 0;
        for session in it: sessions
            invariant
                it.seq() == sessions@,
                n == it.index(),
                sessions@.len() == count,
                count == self.models@.len(),
                results@.len() == models_that_ran(sessions@, n as int).len(),
                forall|i: int|
                    0 <= i < results@.len() ==> {
                        let m = models_that_ran(sessions@, n as int)[i];
                        is_result_of(#[trigger] results@[i], self.models@[m]@, sessions@[m]->0@)
                    },
        {
            match session {
                Some(raws) => {
                    results.push(
                        InferenceResult {
                            model: self.models[n].clone(),
                            outputs: collect_outputs(raws),
                        },
                    );
                },
                None => {},
            }
            n += 1;
        }
        results
    }
}

/// The models that ran are among the models, each once and in their order, and
/// every model that ran is there.
pub proof fn law_models_keep_their_order(sessions: Seq<Option<Vec<SessionOutput>>>, n: int)
    requires
        0 <= n <= sessions.len(),
    ensures
        forall|i: int|
            0 <= i < models_that_ran(sessions, n).len() ==> 0 <= #[trigger] models_that_ran(
                sessions,
                n,
            )[i] < n && sessions[models_that_ran(sessions, n)[i]] is Some,
        forall|i: int, j: int|
            0 <= i < j < models_that_ran(sessions, n).len() ==> #[trigger] models_that_ran(
                sessions,
                n,
            )[i] < #[trigger] models_that_ran(sessions, n)[j],
        forall|m: int|
            0 <= m < n && sessions[m] is Some ==> #[trigger] models_that_ran(sessions, n).contains(
                m,
            ),
    decreases n,
{
    if n > 0 {
        law_models_keep_their_order(sessions, n - 1);
        let earlier = models_that_ran(sessions, n - 1);
        let all = models_that_ran(sessions, n);
        assert forall|m: int| 0 <= m < n && sessions[m] is Some implies #[trigger] all.contains(
            m,
        ) by {
            if m == n - 1 {
                assert(all[all.len() - 1] == m);
            } else {
                assert(earlier.contains(m));
                let k = choose|k: int| 0 <= k < earlier.len() && earlier[k] == m;
                assert(all[k] == m);
            }
        }
    }
}

/// How many of the first `n` outputs consist of floats.
pub open spec fn floats_before(outputs: Seq<SessionOutput>, n: int) -> int
    decreases n,
{
    if n <= 0 {
        0
    } else if outputs[n - 1].values is Some {
        floats_before(outputs, n - 1) + 1
    } else {
        floats_before(outputs, n - 1)
    }
}

/// How many of the first `n` models ran.
pub open spec fn ran_before(sessions: Seq<Option<Vec<SessionOutput>>>, n: int) -> int
    decreases n,
{
    if n <= 0 {
        0
    } else if sessions[n - 1] is Some {
        ran_before(sessions, n - 1) + 1
    } else {
        ran_before(sessions, n - 1)
    }
}

proof fn lemma_floats_are_kept(outputs: Seq<SessionOutput>, n: int)
    requires
        0 <= n <= outputs.len(),
    ensures
        ({
            let kept = outputs.take(n).filter_map(|raw: SessionOutput| output_of(raw));
            &&& kept.len() == floats_before(outputs, n)
            &&& forall|j: int|
                0 <= j < n && (#[trigger] outputs[j]).values is Some ==> {
                    let i = floats_before(outputs, j);
                    &&& 0 <= i < kept.len()
                    &&& kept[i].key@ == outputs[j].key@
                    &&& kept[i].values@ == outputs[j].values->0.values@
                    &&& kept[i].values_softmax@ == outputs[j].values->0.softmax@
                }
        }),
    decreases n,
{
    let f = |raw: SessionOutput| output_of(raw);
    if n == 0 {
        assert(outputs.take(0) =~= Seq::empty());
        reveal(Seq::filter_map);
    } else {
        lemma_floats_are_kept(outputs, n - 1);
        outputs.lemma_filter_map_take_succ(f, n - 1);
        let earlier = outputs.take(n - 1).filter_map(f);
        let kept = outputs.take(n).filter_map(f);
        assert forall|j: int| 0 <= j < n && (#[trigger] outputs[j]).values is Some implies {
            let i = floats_before(outputs, j);
            &&& 0 <= i < kept.len()
            &&& kept[i].key@ == outputs[j].key@
            &&& kept[i].values@ == outputs[j].values->0.values@
            &&& kept[i].values_softmax@ == outputs[j].values->0.softmax@
        } by {
            let i = floats_before(outputs, j);
            if j < n - 1 {
                assert(0 <= i < earlier.len());
                assert(kept[i] == earlier[i]);
            }
        }
    }
}

/// What a model says holds one output for each of its session's that consists of
/// floats, in their order: under the same key, with the session's values as its
/// values and the session's softmax as its softmax.
pub proof fn law_outputs_are_the_sessions(
    result: InferenceResult,
    name: Seq<char>,
    outputs: Seq<SessionOutput>,
)
    requires
        is_result_of(result, name, outputs),
    ensures
        result.model@ == name,
        result.outputs@.len() == floats_before(outputs, outputs.len() as int),
        forall|j: int|
            0 <= j < outputs.len() && (#[trigger] outputs[j]).values is Some ==> {
                let output = result.outputs@[floats_before(outputs, j)];
                &&& 0 <= floats_before(outputs, j) < result.outputs@.len()
                &&& output.key@ == outputs[j].key@
                &&& output.values@ == outputs[j].values->0.values@
                &&& output.values_softmax@ == outputs[j].values->0.softmax@
            },
{
    lemma_floats_are_kept(outputs, outputs.len() as int);
    assert(outputs.take(outputs.len() as int) =~= outputs);
}

/// Each output that consists of floats keeps the number of values it has, value by
/// value, and so does its softmax.
pub proof fn law_values_are_kept(raw: SessionOutput)
    ensures
        raw.values is None <==> output_of(raw) is None,
        output_of(raw) matches Some(output) ==> {
            &&& output.key@ == raw.key@
            &&& output.values@.len() == raw.values->0.values@.len()
            &&& output.values_softmax@.len() == raw.values->0.softmax@.len()
            &&& forall|i: int|
                0 <= i < output.values@.len() ==> #[trigger] output.values@[i]
                    == raw.values->0.values@[i]
            &&& forall|i: int|
                0 <= i < output.values_softmax@.len() ==> #[trigger] output.values_softmax@[i]
                    == raw.values->0.softmax@[i]
        },
{
}

proof fn lemma_ran_before(sessions: Seq<Option<Vec<SessionOutput>>>, n: int)
    requires
        0 <= n <= sessions.len(),
    ensures
        models_that_ran(sessions, n).len() == ran_before(sessions, n),
        forall|m: int|
            0 <= m < n && (#[trigger] sessions[m]) is Some ==> 0 <= ran_before(sessions, m)
                < ran_before(sessions, n) && models_that_ran(sessions, n)[ran_before(sessions, m)]
                == m,
    decreases n,
{
    if n > 0 {
        lemma_ran_before(sessions, n - 1);
    }
}

/// There is one result for each model that ran, in the order of the models, under
/// the name of the model; each output of its session that consists of floats is in
/// it, in order, with its key, its values and its softmax.
pub proof fn law_models_say_what_they_said(
    models: Seq<String>,
    sessions: Seq<Option<Vec<SessionOutput>>>,
    results: Seq<InferenceResult>,
)
    requires
        models.len() == sessions.len(),
        results.len() == models_that_ran(sessions, sessions.len() as int).len(),
        forall|i: int|
            0 <= i < results.len() ==> {
                let m = models_that_ran(sessions, sessions.len() as int)[i];
                is_result_of(#[trigger] results[i], models[m]@, sessions[m]->0@)
            },
    ensures
        results.len() == ran_before(sessions, sessions.len() as int),
        forall|m: int|
            0 <= m < sessions.len() && (#[trigger] sessions[m]) is Some ==> {
                let result = results[ran_before(sessions, m)];
                &&& 0 <= ran_before(sessions, m) < results.len()
                &&& result.model@ == models[m]@
                &&& result.outputs@.len() == floats_before(
                    sessions[m]->0@,
                    sessions[m]->0@.len() as int,
                )
            },
        forall|m: int, j: int|
            0 <= m < sessions.len() && sessions[m] is Some && 0 <= j < sessions[m]->0@.len() && (
            #[trigger] sessions[m]->0@[j]).values is Some ==> {
                let raw = sessions[m]->0@[j];
                let k = floats_before(sessions[m]->0@, j);
                let output = results[ran_before(sessions, m)].outputs@[k];
                &&& 0 <= k < results[ran_before(sessions, m)].outputs@.len()
                &&& output.key@ == raw.key@
                &&& output.values@ == raw.values->0.values@
                &&& output.values_softmax@ == raw.values->0.softmax@
            },
{
    lemma_ran_before(sessions, sessions.len() as int);
    assert forall|m: int| 0 <= m < sessions.len() && (#[trigger] sessions[m]) is Some implies {
        let result = results[ran_before(sessions, m)];
        &&& 0 <= ran_before(sessions, m) < results.len()
        &&& result.model@ == models[m]@
        &&& result.outputs@.len() == floats_before(sessions[m]->0@, sessions[m]->0@.len() as int)
        &&& is_result_of(result, models[m]@, sessions[m]->0@)
    } by {
        let result = results[ran_before(sessions, m)];
        law_outputs_are_the_sessions(result, models[m]@, sessions[m]->0@);
    }
    assert forall|m: int, j: int|
        0 <= m < sessions.len() && sessions[m] is Some && 0 <= j < sessions[m]->0@.len() && (
        #[trigger] sessions[m]->0@[j]).values is Some implies {
        let raw = sessions[m]->0@[j];
        let k = floats_before(sessions[m]->0@, j);
        let output = results[ran_before(sessions, m)].outputs@[k];
        &&& 0 <= k < results[ran_before(sessions, m)].outputs@.len()
        &&& output.key@ == raw.key@
        &&& output.values@ == raw.values->0.values@
        &&& output.values_softmax@ == raw.values->0.softmax@
    } by {
        law_outputs_are_the_sessions(
            results[ran_before(sessions, m)],
            models[m]@,
            sessions[m]->0@,
        );
    }
}

/// The models of a configuration are known by the names that it gives them, in its
/// order.
pub proof fn law_models_keep_their_names(models: Seq<InferenceModelConfig>)
    ensures
        model_names(models).len() == models.len(),
        forall|i: int| 0 <= i < models.len() ==> #[trigger] model_names(models)[i] == models[i].name@,
{
}

} // verus!
