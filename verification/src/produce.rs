//! The `produce` command: its arguments, and what it decides from them
//! before it sends anything.

use crate::client::{ProducerBuilder, ProducerOptionsView, SchemaType, SchemaTypeView};
use crate::options::{ReliableOptions, RetentionPolicy};
use vstd::prelude::*;
use vstd::string::*;

verus! {

/// The arguments of the `produce` command.
#[derive(Debug)]
pub struct Produce {
    pub basic_args: BasicArgs,
    pub extended_args: ExtendedArgs,
    pub reliable_args: ReliableArgs,
}

/// Where to produce, and what.
#[derive(Debug)]
pub struct BasicArgs {
    /// The address of the broker.
    pub service_addr: String,
    pub producer_name: String,
    pub topic: String,
    /// The message to send.
    pub message: String,
    /// A file to send in place of the message; read under reliable dispatch
    /// only.
    pub file: Option<String>,
}

/// The schema, the attributes and the pace.
#[derive(Debug)]
pub struct ExtendedArgs {
    pub schema: Option<SchemaTypeArg>,
    /// The JSON schema, needed where the schema type is JSON.
    pub json_schema: Option<String>,
    /// The attributes of each message, as [`parse_attributes`] gives them:
    /// no key twice.
    pub attributes: Option<Vec<(String, String)>>,
    pub partitions: Option<u32>,
    /// The number of messages to produce.
    pub count: u32,
    /// The time between two messages, in milliseconds; at least
    /// [`MIN_INTERVAL_MS`].
    pub interval: u64,
}

/// The options of reliable dispatch.
#[derive(Debug)]
pub struct ReliableArgs {
    pub reliable: bool,
    /// The segment size in megabytes.
    pub segment_size: usize,
    pub retention: Option<RetentionPolicyArg>,
    /// The retention period in seconds.
    pub retention_period: u64,
}

/// The retention policy as the command line names it.
#[derive(Clone, Copy, Debug, PartialEq, Eq, Structural)]
pub enum RetentionPolicyArg {
    Ack,
    Expire,
}

/// The schema type as the command line names it.
#[derive(Clone, Copy, Debug, PartialEq, Eq, Structural)]
pub enum SchemaTypeArg {
    Bytes,
    String,
    Int64,
    Json,
}

/// Why the command refuses its arguments.
#[derive(Clone, Copy, Debug, PartialEq, Eq, Structural)]
pub enum ProduceError {
    /// The interval is below [`MIN_INTERVAL_MS`].
    IntervalTooShort,
    /// The schema type is JSON and no JSON schema is given.
    MissingJsonSchema,
}

impl ProduceError {
    /// The error in words.
    pub fn message(&self) -> (text: &'static str)
        ensures
            text@ == (match *self {
                ProduceError::IntervalTooShort => "The interval must be at least 100 milliseconds"@,
                ProduceError::MissingJsonSchema => "JSON schema is required for schema type 'Json'"@,
            }),
    {
        match self {
            ProduceError::IntervalTooShort => "The interval must be at least 100 milliseconds",
            ProduceError::MissingJsonSchema => "JSON schema is required for schema type 'Json'",
        }
    }
}

/// The shortest interval between two messages, in milliseconds.
pub const MIN_INTERVAL_MS: u64 = 100;

/// The name under which the command registers its schema.
pub open spec fn schema_name() -> Seq<char> {
    "my_app"@
}

impl SchemaTypeArg {
    /// The schema type that the argument names; a JSON schema comes out
    /// with an empty text, to be filled in.
    pub fn schema_type(self) -> (schema: SchemaType)
        ensures
            schema@ == schema_view_of(self),
    {
        match self {
            SchemaTypeArg::Bytes => SchemaType::Bytes,
            SchemaTypeArg::String => SchemaType::String,
            SchemaTypeArg::Int64 => SchemaType::Int64,
            SchemaTypeArg::Json => SchemaType::Json(String::new()),
        }
    }
}

/// The value of the schema type that `arg` names: a JSON schema has an
/// empty text.
pub open spec fn schema_view_of(arg: SchemaTypeArg) -> SchemaTypeView {
    match arg {
        SchemaTypeArg::Bytes => SchemaTypeView::Bytes,
        SchemaTypeArg::String => SchemaTypeView::String,
        SchemaTypeArg::Int64 => SchemaTypeView::Int64,
        SchemaTypeArg::Json => SchemaTypeView::Json(Seq::empty()),
    }
}

/// The schema that the arguments ask for, where they are sound: the string
/// schema where none is named, the JSON schema with its text where JSON is
/// named and a text is given, and the named schema otherwise.
pub open spec fn chosen_schema(
    schema_type: Option<SchemaTypeArg>,
    json_schema: Option<Seq<char>>,
) -> Option<SchemaTypeView> {
    match schema_type {
        None => Some(SchemaTypeView::String),
        Some(SchemaTypeArg::Json) => match json_schema {
            Some(text) => Some(SchemaTypeView::Json(text)),
            None => None,
        },
        Some(other) => Some(schema_view_of(other)),
    }
}

/// The text of an optional string.
pub open spec fn text_of(text: Option<String>) -> Option<Seq<char>> {
    match text {
        Some(text) => Some(text@),
        None => None,
    }
}

/// Settles the schema of the messages. A JSON schema type needs the text of
/// the schema; no schema type means strings.
pub fn validate_schema(schema_type: Option<SchemaTypeArg>, json_schema: Option<String>) -> (result:
    Result<SchemaType, ProduceError>)
    ensures
        match chosen_schema(schema_type, text_of(json_schema)) {
            Some(schema) => result matches Ok(chosen) && chosen@ == schema,
            None => result == Err::<SchemaType, ProduceError>(ProduceError::MissingJsonSchema),
        },
{
    match schema_type {
        Some(SchemaTypeArg::Json) => match json_schema {
            Some(text) => Ok(SchemaType::Json(text)),
            None => Err(ProduceError::MissingJsonSchema),
        },
        Some(other) => Ok(other.schema_type()),
        None => Ok(SchemaTypeArg::String.schema_type()),
    }
}

/// Whether `c` is white space, as Unicode defines it.
pub open spec fn is_white_space(c: char) -> bool {
    let code = c as u32;
    ||| 0x09 <= code <= 0x0D
    ||| code == 0x20
    ||| code == 0x85
    ||| code == 0xA0
    ||| code == 0x1680
    ||| 0x2000 <= code <= 0x200A
    ||| code == 0x2028
    ||| code == 0x2029
    ||| code == 0x202F
    ||| code == 0x205F
    ||| code == 0x3000
}

/// Whether `c` is white space, as Unicode defines it.
pub fn white_space(c: char) -> (white: bool)
    ensures
        white == is_white_space(c),
{
    let code: u32 = c as u32;
    (0x09 <= code && code <= 0x0D) || code == 0x20 || code == 0x85 || code == 0xA0 || code
        == 0x1680 || (0x2000 <= code && code <= 0x200A) || code == 0x2028 || code == 0x2029
        || code == 0x202F || code == 0x205F || code == 0x3000
}

/// The first position in `from..to` at which `text` holds `c`, or `to`
/// where it holds none there.
pub open spec fn first_of(text: Seq<char>, c: char, from: int, to: int) -> int
    decreases to - from,
{
    if from < to && text[from] != c {
        first_of(text, c, from + 1, to)
    } else {
        from
    }
}

/// The first position in `from..to` at which `text` holds no white space,
/// or `to` where all of it is white space.
pub open spec fn trim_start(text: Seq<char>, from: int, to: int) -> int
    decreases to - from,
{
    if from < to && is_white_space(text[from]) {
        trim_start(text, from + 1, to)
    } else {
        from
    }
}

/// The position behind the last character in `from..to` of `text` that is
/// no white space, or `from` where all of it is white space.
pub open spec fn trim_end(text: Seq<char>, from: int, to: int) -> int
    decreases to - from,
{
    if from < to && is_white_space(text[to - 1]) {
        trim_end(text, from, to - 1)
    } else {
        to
    }
}

/// The part `from..to` of `text` without the white space at its ends.
pub open spec fn trimmed(text: Seq<char>, from: int, to: int) -> Seq<char> {
    let start = trim_start(text, from, to);
    text.subrange(start, trim_end(text, start, to))
}

/// The attributes that `text` spells out from position `from` on, or
/// nothing where it is malformed. The text is a list of pairs with commas
/// between them. In a pair, the first colon parts the key from the value,
/// and both have the white space at their ends removed. A pair without a
/// colon makes the whole text malformed.
pub open spec fn parsed_attributes(text: Seq<char>, from: int) -> Option<
    Seq<(Seq<char>, Seq<char>)>,
>
    decreases text.len() - from,
{
    let end = first_of(text, ',', from, text.len() as int);
    let colon = first_of(text, ':', from, end);
    if colon >= end {
        None
    } else {
        let pair = (trimmed(text, from, colon), trimmed(text, colon + 1, end));
        if from <= end < text.len() {
            match parsed_attributes(text, end + 1) {
                Some(rest) => Some(seq![pair] + rest),
                None => None,
            }
        } else {
            Some(seq![pair])
        }
    }
}

/// The value of a list of attributes.
pub open spec fn attributes_view(pairs: Seq<(String, String)>) -> Seq<(Seq<char>, Seq<char>)> {
    pairs.map_values(|pair: (String, String)| (pair.0@, pair.1@))
}

/// What [`parse_attributes`] says of a malformed text.
pub open spec fn missing_value() -> Seq<char> {
    "Invalid format: missing value"@
}

proof fn lemma_first_of_bounds(text: Seq<char>, c: char, from: int, to: int)
    requires
        from <= to,
    ensures
        from <= first_of(text, c, from, to) <= to,
    decreases to - from,
{
    if from < to && text[from] != c {
        lemma_first_of_bounds(text, c, from + 1, to);
    }
}

/// The first position in `from..to` at which `text` holds `c`, or `to`.
fn find_first(text: &str, c: char, from: usize, to: usize) -> (position: usize)
    requires
        from <= to <= text@.len(),
    ensures
        position == first_of(text@, c, from as int, to as int),
        from <= position <= to,
{
    let mut i: usize = from;
    while i < to && text.get_char(i) != c
        invariant
            from <= i <= to <= text@.len(),
            first_of(text@, c, from as int, to as int) == first_of(text@, c, i as int, to as int),
        decreases to - i,
    {
        i = i + 1;
    }
    i
}

/// The part `from..to` of `text` without the white space at its ends.
fn trimmed_part(text: &str, from: usize, to: usize) -> (part: String)
    requires
        from <= to <= text@.len(),
    ensures
        part@ == trimmed(text@, from as int, to as int),
{
    let mut start: usize = from;
    while start < to && white_space(text.get_char(start))
        invariant
            from <= start <= to <= text@.len(),
            trim_start(text@, from as int, to as int) == trim_start(text@, start as int, to as int),
        decreases to - start,
    {
        start = start + 1;
    }
    let mut end: usize = to;
    while start < end && white_space(text.get_char(end - 1))
        invariant
            start <= end <= to <= text@.len(),
            trim_end(text@, start as int, to as int) == trim_end(text@, start as int, end as int),
        decreases end - start,
    {
        end = end - 1;
    }
    String::from_str(text.substring_char(start, end))
}

/// Whether the key of the pair at `i` comes again later in `pairs`.
pub open spec fn repeated_later(pairs: Seq<(Seq<char>, Seq<char>)>, i: int) -> bool {
    exists|j: int| i < j < pairs.len() && (#[trigger] pairs[j]).0 == pairs[i].0
}

/// The first `upto` pairs of `pairs` as a map spelled out: of the pairs
/// with one key only the last of the whole list stays, and what stays keeps
/// its order.
pub open spec fn last_of_each_key(pairs: Seq<(Seq<char>, Seq<char>)>, upto: int) -> Seq<
    (Seq<char>, Seq<char>),
>
    decreases upto,
{
    if upto <= 0 {
        Seq::empty()
    } else {
        let front = last_of_each_key(pairs, upto - 1);
        if repeated_later(pairs, upto - 1) {
            front
        } else {
            front.push(pairs[upto - 1])
        }
    }
}

/// What stays of a list of pairs holds no key twice; each pair that stays is
/// the last of the list with its key; and every key of the list stays, with
/// the value of its last pair.
pub proof fn lemma_last_of_each_key(pairs: Seq<(Seq<char>, Seq<char>)>, upto: int)
    requires
        0 <= upto <= pairs.len(),
    ensures
        forall|k: int|
            0 <= k < last_of_each_key(pairs, upto).len() ==> exists|i: int|
                0 <= i < upto && pairs[i] == #[trigger] last_of_each_key(pairs, upto)[k]
                    && !repeated_later(pairs, i),
        forall|a: int, b: int|
            0 <= a < b < last_of_each_key(pairs, upto).len() ==> (#[trigger] last_of_each_key(
                pairs,
                upto,
            )[a]).0 != (#[trigger] last_of_each_key(pairs, upto)[b]).0,
        forall|i: int|
            0 <= i < upto && !repeated_later(pairs, i) ==> last_of_each_key(pairs, upto).contains(
                #[trigger] pairs[i],
            ),
    decreases upto,
{
    if upto > 0 {
        let front = last_of_each_key(pairs, upto - 1);
        let kept = last_of_each_key(pairs, upto);
        lemma_last_of_each_key(pairs, upto - 1);
        assert forall|k: int| 0 <= k < kept.len() implies exists|i: int|
            0 <= i < upto && pairs[i] == #[trigger] kept[k] && !repeated_later(pairs, i) by {
            if k < front.len() {
                let i = choose|i: int|
                    0 <= i < upto - 1 && pairs[i] == front[k] && !repeated_later(pairs, i);
                assert(pairs[i] == kept[k]);
            } else {
                assert(pairs[upto - 1] == kept[k]);
            }
        }
        assert forall|a: int, b: int| 0 <= a < b < kept.len() implies (#[trigger] kept[a]).0 != (
        #[trigger] kept[b]).0 by {
            if b < front.len() {
                assert(front[a].0 != front[b].0);
            } else {
                let i = choose|i: int|
                    0 <= i < upto - 1 && pairs[i] == front[a] && !repeated_later(pairs, i);
                if pairs[upto - 1].0 == pairs[i].0 {
                    assert(repeated_later(pairs, i));
                }
            }
        }
        assert forall|i: int| 0 <= i < upto && !repeated_later(pairs, i) implies kept.contains(
            #[trigger] pairs[i],
        ) by {
            if i < upto - 1 {
                let k = choose|k: int| 0 <= k < front.len() && front[k] == pairs[i];
                assert(kept[k] == pairs[i]);
            } else {
                assert(kept[kept.len() - 1] == pairs[i]);
            }
        }
    }
}

/// Reads the pairs that `val` spells out, one for each piece between
/// commas, in the order of the text.
fn parse_pairs(val: &str) -> (result: Result<Vec<(String, String)>, String>)
    ensures
        match parsed_attributes(val@, 0) {
            Some(pairs) => result matches Ok(found) && attributes_view(found@) == pairs,
            None => result matches Err(text) && text@ == missing_value(),
        },
{
    let length: usize = val.unicode_len();
    let mut pairs: Vec<(String, String)> = Vec::new();
    let mut from: usize = 0;
    proof {
        assert(attributes_view(pairs@) =~= Seq::empty());
        assert(Seq::<(Seq<char>, Seq<char>)>::empty() + parsed_attributes(val@, 0)->Some_0
            =~= parsed_attributes(val@, 0)->Some_0);
    }
    loop
        invariant
            from <= length == val@.len(),
            parsed_attributes(val@, 0) == (match parsed_attributes(val@, from as int) {
                Some(rest) => Some(attributes_view(pairs@) + rest),
                None => None,
            }),
        decreases length - from,
    {
        let end: usize = find_first(val, ',', from, length);
        let colon: usize = find_first(val, ':', from, end);
        if colon >= end {
            return Err(String::from_str("Invalid format: missing value"));
        }
        let key = trimmed_part(val, from, colon);
        let value = trimmed_part(val, colon + 1, end);
        let ghost before = attributes_view(pairs@);
        let ghost pair = (key@, value@);
        pairs.push((key, value));
        proof {
            assert(attributes_view(pairs@) =~= before.push(pair));
            if end < length {
                let rest = parsed_attributes(val@, end + 1);
                if rest is Some {
                    assert(before + (seq![pair] + rest->Some_0) =~= before.push(pair)
                        + rest->Some_0);
                }
            } else {
                assert(before + seq![pair] =~= before.push(pair));
            }
        }
        if end >= length {
            return Ok(pairs);
        }
        from = end + 1;
    }
}

/// Whether the key of the pair at `i` comes again later in `pairs`.
fn key_comes_again(pairs: &Vec<(String, String)>, i: usize) -> (again: bool)
    requires
        i < pairs@.len(),
    ensures
        again == repeated_later(attributes_view(pairs@), i as int),
{
    let length: usize = pairs.len();
    let mut j: usize = i + 1;
    while j < length
        invariant
            i < j <= length == pairs@.len(),
            forall|k: int|
                i < k < j ==> (#[trigger] attributes_view(pairs@)[k]).0 != attributes_view(
                    pairs@,
                )[i as int].0,
        decreases pairs@.len() - j,
    {
        if pairs[j].0 == pairs[i].0 {
            assert(attributes_view(pairs@)[j as int].0 == attributes_view(pairs@)[i as int].0);
            return true;
        }
        j = j + 1;
    }
    false
}

/// Parses attributes of the form `key1:value1,key2:value2`. The first colon
/// of a pair parts its key from its value, and both are trimmed. A pair
/// without a colon is an error. The attributes are a map: where a key comes
/// more than once, its last pair stays and the earlier ones are dropped;
/// what stays comes out in the order of the text.
pub fn parse_attributes(val: &str) -> (result: Result<Vec<(String, String)>, String>)
    ensures
        match parsed_attributes(val@, 0) {
            Some(pairs) => result matches Ok(found) && attributes_view(found@) == last_of_each_key(
                pairs,
                pairs.len() as int,
            ),
            None => result matches Err(text) && text@ == missing_value(),
        },
{
    let pairs = match parse_pairs(val) {
        Ok(pairs) => pairs,
        Err(text) => {
            return Err(text);
        },
    };
    let mut kept: Vec<(String, String)> = Vec::new();
    let mut i: usize = 0;
    proof {
        assert(attributes_view(kept@) =~= last_of_each_key(attributes_view(pairs@), 0));
    }
    while i < pairs.len()
        invariant
            i <= pairs@.len(),
            attributes_view(kept@) == last_of_each_key(attributes_view(pairs@), i as int),
        decreases pairs@.len() - i,
    {
        if !key_comes_again(&pairs, i) {
            let ghost before = attributes_view(kept@);
            kept.push((pairs[i].0.clone(), pairs[i].1.clone()));
            proof {
                assert(attributes_view(kept@) =~= before.push(
                    attributes_view(pairs@)[i as int],
                ));
            }
        }
        i = i + 1;
    }
    Ok(kept)
}

/// Where the payload of the messages comes from.
#[derive(Debug)]
pub enum PayloadSource {
    /// The bytes of the message given on the command line.
    Message(String),
    /// The contents of the file at this path.
    File(String),
}

/// The mathematical value of a [`PayloadSource`].
pub enum PayloadSourceView {
    Message(Seq<char>),
    File(Seq<char>),
}

impl View for PayloadSource {
    type V = PayloadSourceView;

    open spec fn view(&self) -> PayloadSourceView {
        match *self {
            PayloadSource::Message(text) => PayloadSourceView::Message(text@),
            PayloadSource::File(path) => PayloadSourceView::File(path@),
        }
    }
}

/// What the command does once its arguments are found sound.
#[derive(Debug)]
pub struct ProducePlan {
    /// The address of the broker to connect to.
    pub service_addr: String,
    /// The producer's options.
    pub producer: ProducerBuilder,
    pub payload: PayloadSource,
    /// The attributes of each message.
    pub attributes: Option<Vec<(String, String)>>,
    /// The number of messages to send.
    pub count: u32,
    /// The time to wait after each message, in milliseconds, where
    /// `pause` is set.
    pub interval: u64,
    /// Whether to wait after each message: where more than one is sent.
    pub pause: bool,
}

/// The retention policy that `arg` names; expiry where none is named.
pub fn retention_policy_of(arg: Option<RetentionPolicyArg>) -> (policy: RetentionPolicy)
    ensures
        policy == (match arg {
            Some(RetentionPolicyArg::Ack) => RetentionPolicy::RetainUntilAck,
            Some(RetentionPolicyArg::Expire) => RetentionPolicy::RetainUntilExpire,
            None => RetentionPolicy::RetainUntilExpire,
        }),
{
    match arg {
        Some(RetentionPolicyArg::Ack) => RetentionPolicy::RetainUntilAck,
        Some(RetentionPolicyArg::Expire) => RetentionPolicy::RetainUntilExpire,
        None => RetentionPolicy::RetainUntilExpire,
    }
}

/// The options of reliable dispatch that `args` ask for, if they ask for
/// reliable dispatch.
pub open spec fn reliable_options_of(args: ReliableArgs) -> Option<ReliableOptions> {
    if args.reliable {
        Some(
            ReliableOptions {
                segment_size: args.segment_size,
                retention_policy: match args.retention {
                    Some(RetentionPolicyArg::Ack) => RetentionPolicy::RetainUntilAck,
                    _ => RetentionPolicy::RetainUntilExpire,
                },
                retention_period: args.retention_period,
            },
        )
    } else {
        None
    }
}

/// The payload that the arguments ask for: the file under reliable dispatch
/// where one is named, the message otherwise.
pub open spec fn payload_of(produce: Produce) -> PayloadSourceView {
    if produce.reliable_args.reliable && produce.basic_args.file is Some {
        PayloadSourceView::File(produce.basic_args.file->Some_0@)
    } else {
        PayloadSourceView::Message(produce.basic_args.message@)
    }
}

/// Checks the time between two messages: it must be at least
/// [`MIN_INTERVAL_MS`].
pub fn check_interval(interval: u64) -> (result: Result<(), ProduceError>)
    ensures
        result == (if interval < MIN_INTERVAL_MS {
            Err::<(), ProduceError>(ProduceError::IntervalTooShort)
        } else {
            Ok::<(), ProduceError>(())
        }),
{
    if interval < MIN_INTERVAL_MS {
        Err(ProduceError::IntervalTooShort)
    } else {
        Ok(())
    }
}

/// Decides what the command does. An interval below [`MIN_INTERVAL_MS`] is
/// refused first, then a JSON schema type without a schema. Otherwise the
/// producer is set up with the topic, the name and the schema, with the
/// partitions where given, and with reliable dispatch where asked for.
pub fn plan_produce(produce: Produce) -> (result: Result<ProducePlan, ProduceError>)
    ensures
        match result {
            Err(ProduceError::IntervalTooShort) => produce.extended_args.interval < MIN_INTERVAL_MS,
            Err(ProduceError::MissingJsonSchema) => produce.extended_args.interval
                >= MIN_INTERVAL_MS && chosen_schema(
                produce.extended_args.schema,
                text_of(produce.extended_args.json_schema),
            ) is None,
            Ok(plan) => {
                &&& produce.extended_args.interval >= MIN_INTERVAL_MS
                &&& chosen_schema(
                    produce.extended_args.schema,
                    text_of(produce.extended_args.json_schema),
                ) matches Some(schema)
                &&& plan.service_addr@ == produce.basic_args.service_addr@
                &&& plan.producer@ == (ProducerOptionsView {
                    topic: Some(produce.basic_args.topic@),
                    name: Some(produce.basic_args.producer_name@),
                    schema: Some((schema_name(), schema)),
                    partitions: match produce.extended_args.partitions {
                        Some(partitions) => Some(partitions as usize),
                        None => None,
                    },
                    reliable: reliable_options_of(produce.reliable_args),
                })
                &&& plan.payload@ == payload_of(produce)
                &&& plan.attributes == produce.extended_args.attributes
                &&& plan.count == produce.extended_args.count
                &&& plan.interval == produce.extended_args.interval
                &&& plan.pause == (produce.extended_args.count > 1)
            },
        },
{
    let Produce { basic_args, extended_args, reliable_args } = produce;
    if let Err(error) = check_interval(extended_args.interval) {
        return Err(error);
    }
    let schema_type = match validate_schema(extended_args.schema, extended_args.json_schema) {
        Ok(schema_type) => schema_type,
        Err(error) => {
            return Err(error);
        },
    };
    let mut producer = ProducerBuilder::new().with_topic(basic_args.topic).with_name(
        basic_args.producer_name,
    ).with_schema(String::from_str("my_app"), schema_type);
    if let Some(partitions) = extended_args.partitions {
        producer = producer.with_partitions(partitions as usize);
    }
    if reliable_args.reliable {
        let options = ReliableOptions::new(
            reliable_args.segment_size,
            retention_policy_of(reliable_args.retention),
            reliable_args.retention_period,
        );
        producer = producer.with_reliable_dispatch(options);
    }
    let payload = match basic_args.file {
        Some(path) => if reliable_args.reliable {
            PayloadSource::File(path)
        } else {
            PayloadSource::Message(basic_args.message)
        },
        None => PayloadSource::Message(basic_args.message),
    };
    Ok(
        ProducePlan {
            service_addr: basic_args.service_addr,
            producer,
            payload,
            attributes: extended_args.attributes,
            count: extended_args.count,
            interval: extended_args.interval,
            pause: extended_args.count > 1,
        },
    )
}

} // verus!
