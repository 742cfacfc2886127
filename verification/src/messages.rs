//! The messages exchanged with the host, and the emitters for their JSON
//! bodies.
//!
//! Inbound commands arrive as JSON; the surrounding process parses them into
//! [`CommandMessage`] values. Outbound results, events and data events are
//! rendered here, byte for byte, by verified emitters whose contracts give
//! the exact body.

use vstd::prelude::*;

use crate::json::{
    dec_digits, json_string, json_string_array, json_u64_array, lit, push_json_string,
    push_json_string_array, push_json_u64_array, push_lit, push_u32_dec, push_u64_dec,
};

verus! {

/// An inbound descriptor of one named data stream: the opaque dataset
/// handle, the item count, and the total byte size.
pub struct Param {
    pub name: String,
    pub dataset: String,
    pub amount: u32,
    pub total_byte_size: u64,
}

/// A sibling model with its mount path and state descriptors.
pub struct OtherModelWithState {
    pub id: String,
    pub mount_path: String,
    pub state: Vec<Param>,
}

/// A sibling model with its mount path.
pub struct OtherModel {
    pub id: String,
    pub mount_path: String,
}

/// An RPC command from the host.
pub enum CommandMessage {
    CallCreateModelState {
        id: String,
        params: Vec<Param>,
        other_models: Vec<OtherModelWithState>,
    },
    CallInstantiateModel {
        id: String,
        instantiated_model_id: String,
        state: Vec<Param>,
        other_models: Vec<OtherModel>,
    },
    CallDisposeInstantiatedModel { instantiated_model_id: String },
    CallTrain {
        id: String,
        training_session_id: String,
        instantiated_model_id: String,
        params: Vec<Param>,
    },
    CallCancelTrain { training_session_id: String },
    CallEvaluate { id: String, instantiated_model_id: String, params: Vec<Param> },
    CallGetModelState { id: String, instantiated_model_id: String },
}

pub enum CallCreateModelStateError {
    Exception { details: Option<String> },
}

pub enum CallInstantiateModelError {
    Exception { details: Option<String> },
}

pub enum CallTrainError {
    Exception { details: Option<String> },
    InstantiatedModelNotFound,
}

pub enum CallEvaluateError {
    Exception { details: Option<String> },
    InstantiatedModelNotFound,
}

pub enum CallGetModelStateError {
    Exception { details: Option<String> },
    InstantiatedModelNotFound,
}

/// One named evaluate output: the per-segment byte sizes, in emission order.
pub struct EvaluateOutput {
    pub name: String,
    pub byte_sizes: Vec<u64>,
}

/// The result of one command, keyed by its id on the wire.
pub enum ResultMessage {
    CallCreateModelState { error: Option<CallCreateModelStateError> },
    CallInstantiateModel { error: Option<CallInstantiateModelError> },
    CallTrain { error: Option<CallTrainError> },
    CallEvaluate { error: Option<CallEvaluateError>, outputs: Option<Vec<EvaluateOutput>> },
    CallGetModelState { error: Option<CallGetModelStateError> },
}

/// An event the guest raises on its own: the startup handshake, training
/// progress (its number already rendered in decimal), training metrics, or a
/// chunk of provided state data.
pub enum EventMessage {
    ModelSessionInitialized,
    TrainingProgress { training_session_id: String, progress_repr: Vec<u8> },
    TrainingMetrics { training_session_id: String, names: Vec<String> },
    ProvideStateData { command_id: String, names: Vec<String> },
}

/// A data event: a pull request for a dataset range, or a shuffle order for
/// a group of datasets.
pub enum DataEvent {
    RequestData { dataset: String, request_id: u32, start_index: u32, amount: u32 },
    Shuffle { datasets: Vec<String> },
}

/// The error object `{"code":"exception"}`, with details when present.
pub open spec fn exception_json(details: Option<String>) -> Seq<u8> {
    match details {
        Some(d) => lit("{\"code\":\"exception\",\"details\":") + json_string(d@) + lit("}"),
        None => lit("{\"code\":\"exception\"}"),
    }
}

/// The error object `{"code":"instantiated_model_not_found"}`.
pub open spec fn not_found_json() -> Seq<u8> {
    lit("{\"code\":\"instantiated_model_not_found\"}")
}

/// The JSON object for one evaluate output.
pub open spec fn evaluate_output_json(o: EvaluateOutput) -> Seq<u8> {
    lit("{\"name\":") + json_string(o.name@) + lit(",\"byteSizes\":") + json_u64_array(
        o.byte_sizes@,
    ) + lit("}")
}

/// The items of the outputs array, separated by commas.
pub open spec fn outputs_items(os: Seq<EvaluateOutput>) -> Seq<u8>
    decreases os.len(),
{
    if os.len() == 0 {
        Seq::empty()
    } else if os.len() == 1 {
        evaluate_output_json(os[0])
    } else {
        evaluate_output_json(os[0]) + seq![0x2cu8] + outputs_items(os.drop_first())
    }
}

/// The JSON array of evaluate outputs.
pub open spec fn outputs_json(os: Seq<EvaluateOutput>) -> Seq<u8> {
    seq![0x5bu8] + outputs_items(os) + seq![0x5du8]
}

/// The JSON object for a result, without its command id.
pub open spec fn result_json(m: ResultMessage) -> Seq<u8> {
    match m {
        ResultMessage::CallCreateModelState { error } => match error {
            None => lit("{}"),
            Some(CallCreateModelStateError::Exception { details }) => lit("{\"error\":")
                + exception_json(details) + lit("}"),
        },
        ResultMessage::CallInstantiateModel { error } => match error {
            None => lit("{}"),
            Some(CallInstantiateModelError::Exception { details }) => lit("{\"error\":")
                + exception_json(details) + lit("}"),
        },
        ResultMessage::CallTrain { error } => match error {
            None => lit("{}"),
            Some(CallTrainError::Exception { details }) => lit("{\"error\":") + exception_json(
                details,
            ) + lit("}"),
            Some(CallTrainError::InstantiatedModelNotFound) => lit("{\"error\":")
                + not_found_json() + lit("}"),
        },
        ResultMessage::CallEvaluate { error, outputs } => {
            let error_part = match error {
                None => Seq::<u8>::empty(),
                Some(CallEvaluateError::Exception { details }) => lit("\"error\":")
                    + exception_json(details),
                Some(CallEvaluateError::InstantiatedModelNotFound) => lit("\"error\":")
                    + not_found_json(),
            };
            let outputs_part = match outputs {
                None => Seq::<u8>::empty(),
                Some(os) => lit("\"outputs\":") + outputs_json(os@),
            };
            let sep = if error is Some && outputs is Some {
                lit(",")
            } else {
                Seq::<u8>::empty()
            };
            lit("{") + error_part + sep + outputs_part + lit("}")
        },
        ResultMessage::CallGetModelState { error } => match error {
            None => lit("{}"),
            Some(CallGetModelStateError::Exception { details }) => lit("{\"error\":")
                + exception_json(details) + lit("}"),
            Some(CallGetModelStateError::InstantiatedModelNotFound) => lit("{\"error\":")
                + not_found_json() + lit("}"),
        },
    }
}

/// The full result body `{"result":...,"id":"..."}`.
pub open spec fn result_with_id_json(id: Seq<char>, m: ResultMessage) -> Seq<u8> {
    lit("{\"result\":") + result_json(m) + lit(",\"id\":") + json_string(id) + lit("}")
}

/// The JSON body for an event.
pub open spec fn event_json(e: EventMessage) -> Seq<u8> {
    match e {
        EventMessage::ModelSessionInitialized => lit(
            "{\"event\":\"modelSessionInitialized\",\"params\":{}}",
        ),
        EventMessage::TrainingProgress { training_session_id, progress_repr } => lit(
            "{\"event\":\"trainingProgress\",\"params\":{\"trainingSessionId\":",
        ) + json_string(training_session_id@) + lit(",\"progress\":") + progress_repr@ + lit(
            "}}",
        ),
        EventMessage::TrainingMetrics { training_session_id, names } => lit(
            "{\"event\":\"trainingMetrics\",\"params\":{\"trainingSessionId\":",
        ) + json_string(training_session_id@) + lit(",\"names\":") + json_string_array(
            names.deep_view(),
        ) + lit("}}"),
        EventMessage::ProvideStateData { command_id, names } => lit(
            "{\"event\":\"provideStateData\",\"params\":{\"commandId\":",
        ) + json_string(command_id@) + lit(",\"names\":") + json_string_array(names.deep_view())
            + lit("}}"),
    }
}

/// The JSON body for a data event.
pub open spec fn data_event_json(e: DataEvent) -> Seq<u8> {
    match e {
        DataEvent::RequestData { dataset, request_id, start_index, amount } => lit(
            "{\"event\":\"requestData\",\"dataset\":",
        ) + json_string(dataset@) + lit(",\"requestId\":") + dec_digits(request_id as nat) + lit(
            ",\"startIndex\":",
        ) + dec_digits(start_index as nat) + lit(",\"amount\":") + dec_digits(amount as nat)
            + lit("}"),
        DataEvent::Shuffle { datasets } => lit("{\"event\":\"shuffle\",\"datasets\":")
            + json_string_array(datasets.deep_view()) + lit("}"),
    }
}

/// Appends the JSON object for one evaluate output to `out`.
fn push_evaluate_output(out: &mut Vec<u8>, o: &EvaluateOutput)
    ensures
        final(out)@ == old(out)@ + evaluate_output_json(*o),
{
    push_lit(out, "{\"name\":");
    push_json_string(out, o.name.as_str());
    push_lit(out, ",\"byteSizes\":");
    push_json_u64_array(out, &o.byte_sizes);
    push_lit(out, "}");
    assert(out@ =~= old(out)@ + evaluate_output_json(*o));
}

/// One more output extends the array items by a comma and the output, or is
/// the first item.
proof fn lemma_outputs_items_snoc(os: Seq<EvaluateOutput>, i: int)
    requires
        0 <= i < os.len(),
    ensures
        outputs_items(os.take(i + 1)) == if i == 0 {
            evaluate_output_json(os[0])
        } else {
            outputs_items(os.take(i)) + seq![0x2cu8] + evaluate_output_json(os[i])
        },
    decreases i,
{
    if i == 0 {
        assert(os.take(1) =~= seq![os[0]]);
        assert(os.take(1)[0] == os[0]);
    } else if i == 1 {
        assert(os.take(2)[0] == os[0]);
        assert(os.take(2).drop_first() =~= seq![os[1]]);
        assert(os.take(2).drop_first()[0] == os[1]);
        assert(os.take(1) =~= seq![os[0]]);
        assert(os.take(1)[0] == os[0]);
        assert(outputs_items(os.take(2).drop_first()) == evaluate_output_json(os[1]));
        assert(outputs_items(os.take(2)) == evaluate_output_json(os[0]) + seq![0x2cu8]
            + evaluate_output_json(os[1]));
    } else {
        lemma_outputs_items_snoc(os.drop_first(), i - 1);
        assert(os.take(i + 1).drop_first() =~= os.drop_first().take(i));
        assert(os.take(i).drop_first() =~= os.drop_first().take(i - 1));
        assert(os.take(i + 1)[0] == os[0]);
        assert(os.take(i)[0] == os[0]);
        assert(os.drop_first()[i - 1] == os[i]);
        assert(evaluate_output_json(os[0]) + seq![0x2cu8] + (outputs_items(
            os.drop_first().take(i - 1),
        ) + seq![0x2cu8] + evaluate_output_json(os[i])) =~= (evaluate_output_json(os[0])
            + seq![0x2cu8] + outputs_items(os.drop_first().take(i - 1))) + seq![0x2cu8]
            + evaluate_output_json(os[i]));
    }
}

/// Appends the JSON array of evaluate outputs to `out`.
fn push_outputs(out: &mut Vec<u8>, os: &Vec<EvaluateOutput>)
    ensures
        final(out)@ == old(out)@ + outputs_json(os@),
{
    out.push(0x5b);
    let ghost mid = out@;
    let mut i: usize = 0;
    while i < os.len()
        invariant
            i <= os@.len(),
            out@ == mid + outputs_items(os@.take(i as int)),
        decreases os@.len() - i,
    {
        if i > 0 {
            out.push(0x2c);
        }
        push_evaluate_output(out, &os[i]);
        proof {
            lemma_outputs_items_snoc(os@, i as int);
            if i == 0 {
                assert(out@ =~= mid + outputs_items(os@.take(1)));
            } else {
                assert(out@ =~= mid + outputs_items(os@.take(i + 1)));
            }
        }
        i = i + 1;
    }
    assert(os@.take(os@.len() as int) =~= os@);
    out.push(0x5d);
    assert(out@ =~= old(out)@ + outputs_json(os@));
}

/// Appends the error object for an exception to `out`.
fn push_exception(out: &mut Vec<u8>, details: &Option<String>)
    ensures
        final(out)@ == old(out)@ + exception_json(*details),
{
    match details {
        Some(d) => {
            push_lit(out, "{\"code\":\"exception\",\"details\":");
            push_json_string(out, d.as_str());
            push_lit(out, "}");
            assert(out@ =~= old(out)@ + exception_json(*details));
        },
        None => {
            push_lit(out, "{\"code\":\"exception\"}");
        },
    }
}

/// Appends the JSON object for a result, without its command id, to `out`.
#[verifier::rlimit(50)]
fn push_result_json(out: &mut Vec<u8>, m: &ResultMessage)
    ensures
        final(out)@ == old(out)@ + result_json(*m),
{
    match m {
        ResultMessage::CallCreateModelState { error } => {
            match error {
                None => push_lit(out, "{}"),
                Some(CallCreateModelStateError::Exception { details }) => {
                    push_lit(out, "{\"error\":");
                    push_exception(out, details);
                    push_lit(out, "}");
                },
            }
            assert(out@ =~= old(out)@ + result_json(*m));
        },
        ResultMessage::CallInstantiateModel { error } => {
            match error {
                None => push_lit(out, "{}"),
                Some(CallInstantiateModelError::Exception { details }) => {
                    push_lit(out, "{\"error\":");
                    push_exception(out, details);
                    push_lit(out, "}");
                },
            }
            assert(out@ =~= old(out)@ + result_json(*m));
        },
        ResultMessage::CallTrain { error } => {
            match error {
                None => push_lit(out, "{}"),
                Some(CallTrainError::Exception { details }) => {
                    push_lit(out, "{\"error\":");
                    push_exception(out, details);
                    push_lit(out, "}");
                },
                Some(CallTrainError::InstantiatedModelNotFound) => {
                    push_lit(out, "{\"error\":");
                    push_lit(out, "{\"code\":\"instantiated_model_not_found\"}");
                    push_lit(out, "}");
                },
            }
            assert(out@ =~= old(out)@ + result_json(*m));
        },
        ResultMessage::CallEvaluate { error, outputs } => {
            push_lit(out, "{");
            match error {
                None => {},
                Some(CallEvaluateError::Exception { details }) => {
                    push_lit(out, "\"error\":");
                    push_exception(out, details);
                },
                Some(CallEvaluateError::InstantiatedModelNotFound) => {
                    push_lit(out, "\"error\":");
                    push_lit(out, "{\"code\":\"instantiated_model_not_found\"}");
                },
            }
            if error.is_some() && outputs.is_some() {
                push_lit(out, ",");
            }
            match outputs {
                None => {},
                Some(os) => {
                    push_lit(out, "\"outputs\":");
                    push_outputs(out, os);
                },
            }
            push_lit(out, "}");
            assert(out@ =~= old(out)@ + result_json(*m));
        },
        ResultMessage::CallGetModelState { error } => {
            match error {
                None => push_lit(out, "{}"),
                Some(CallGetModelStateError::Exception { details }) => {
                    push_lit(out, "{\"error\":");
                    push_exception(out, details);
                    push_lit(out, "}");
                },
                Some(CallGetModelStateError::InstantiatedModelNotFound) => {
                    push_lit(out, "{\"error\":");
                    push_lit(out, "{\"code\":\"instantiated_model_not_found\"}");
                    push_lit(out, "}");
                },
            }
            assert(out@ =~= old(out)@ + result_json(*m));
        },
    }
}

/// Renders the full result body `{"result":...,"id":"..."}` for the command
/// with the given id.
pub fn encode_result_with_id(id: &str, m: &ResultMessage) -> (r: Vec<u8>)
    ensures
        r@ == result_with_id_json(id@, *m),
{
    let mut out: Vec<u8> = Vec::new();
    push_lit(&mut out, "{\"result\":");
    push_result_json(&mut out, m);
    push_lit(&mut out, ",\"id\":");
    push_json_string(&mut out, id);
    push_lit(&mut out, "}");
    assert(out@ =~= result_with_id_json(id@, *m));
    out
}

/// Renders the JSON body for an event.
pub fn encode_event(e: &EventMessage) -> (r: Vec<u8>)
    ensures
        r@ == event_json(*e),
{
    let mut out: Vec<u8> = Vec::new();
    match e {
        EventMessage::ModelSessionInitialized => {
            push_lit(&mut out, "{\"event\":\"modelSessionInitialized\",\"params\":{}}");
        },
        EventMessage::TrainingProgress { training_session_id, progress_repr } => {
            push_lit(&mut out, "{\"event\":\"trainingProgress\",\"params\":{\"trainingSessionId\":");
            push_json_string(&mut out, training_session_id.as_str());
            push_lit(&mut out, ",\"progress\":");
            out.extend_from_slice(progress_repr.as_slice());
            push_lit(&mut out, "}}");
        },
        EventMessage::TrainingMetrics { training_session_id, names } => {
            push_lit(&mut out, "{\"event\":\"trainingMetrics\",\"params\":{\"trainingSessionId\":");
            push_json_string(&mut out, training_session_id.as_str());
            push_lit(&mut out, ",\"names\":");
            push_json_string_array(&mut out, names);
            push_lit(&mut out, "}}");
        },
        EventMessage::ProvideStateData { command_id, names } => {
            push_lit(&mut out, "{\"event\":\"provideStateData\",\"params\":{\"commandId\":");
            push_json_string(&mut out, command_id.as_str());
            push_lit(&mut out, ",\"names\":");
            push_json_string_array(&mut out, names);
            push_lit(&mut out, "}}");
        },
    }
    assert(out@ =~= event_json(*e));
    out
}

/// Renders the JSON body for a data event.
pub fn encode_data_event_body(e: &DataEvent) -> (r: Vec<u8>)
    ensures
        r@ == data_event_json(*e),
{
    let mut out: Vec<u8> = Vec::new();
    match e {
        DataEvent::RequestData { dataset, request_id, start_index, amount } => {
            push_lit(&mut out, "{\"event\":\"requestData\",\"dataset\":");
            push_json_string(&mut out, dataset.as_str());
            push_lit(&mut out, ",\"requestId\":");
            push_u32_dec(&mut out, *request_id);
            push_lit(&mut out, ",\"startIndex\":");
            push_u32_dec(&mut out, *start_index);
            push_lit(&mut out, ",\"amount\":");
            push_u32_dec(&mut out, *amount);
            push_lit(&mut out, "}");
        },
        DataEvent::Shuffle { datasets } => {
            push_lit(&mut out, "{\"event\":\"shuffle\",\"datasets\":");
            push_json_string_array(&mut out, datasets);
            push_lit(&mut out, "}");
        },
    }
    assert(out@ =~= data_event_json(*e));
    out
}

} // verus!
