//! The client's configuration: the service address and the options that a
//! producer is made with.

use crate::options::ReliableOptions;
use vstd::prelude::*;
use vstd::string::*;

verus! {

/// The schema of a topic's messages.
#[derive(Debug)]
pub enum SchemaType {
    Bytes,
    String,
    Int64,
    /// A JSON schema, with its text.
    Json(String),
}

/// The mathematical value of a [`SchemaType`].
pub enum SchemaTypeView {
    Bytes,
    String,
    Int64,
    Json(Seq<char>),
}

impl View for SchemaType {
    type V = SchemaTypeView;

    open spec fn view(&self) -> SchemaTypeView {
        match *self {
            SchemaType::Bytes => SchemaTypeView::Bytes,
            SchemaType::String => SchemaTypeView::String,
            SchemaType::Int64 => SchemaTypeView::Int64,
            SchemaType::Json(text) => SchemaTypeView::Json(text@),
        }
    }
}

/// The mathematical value of a [`ProducerBuilder`]: what has been set so
/// far.
pub struct ProducerOptionsView {
    pub topic: Option<Seq<char>>,
    pub name: Option<Seq<char>>,
    pub schema: Option<(Seq<char>, SchemaTypeView)>,
    pub partitions: Option<usize>,
    pub reliable: Option<ReliableOptions>,
}

/// Collects the options of a producer.
#[derive(Debug)]
pub struct ProducerBuilder {
    topic: Option<String>,
    name: Option<String>,
    schema: Option<(String, SchemaType)>,
    partitions: Option<usize>,
    reliable: Option<ReliableOptions>,
}

impl View for ProducerBuilder {
    type V = ProducerOptionsView;

    closed spec fn view(&self) -> ProducerOptionsView {
        ProducerOptionsView {
            topic: match self.topic {
                Some(topic) => Some(topic@),
                None => None,
            },
            name: match self.name {
                Some(name) => Some(name@),
                None => None,
            },
            schema: match self.schema {
                Some((name, schema)) => Some((name@, schema@)),
                None => None,
            },
            partitions: self.partitions,
            reliable: self.reliable,
        }
    }
}

impl ProducerBuilder {
    /// A builder with nothing set.
    pub fn new() -> (builder: Self)
        ensures
            builder@ == (ProducerOptionsView {
                topic: None,
                name: None,
                schema: None,
                partitions: None,
                reliable: None,
            }),
    {
        ProducerBuilder { topic: None, name: None, schema: None, partitions: None, reliable: None }
    }

    /// Sets the topic to produce to.
    pub fn with_topic(self, topic: String) -> (builder: Self)
        ensures
            builder@ == (ProducerOptionsView { topic: Some(topic@), ..self@ }),
    {
        let mut builder = self;
        builder.topic = Some(topic);
        builder
    }

    /// Sets the producer's name.
    pub fn with_name(self, name: String) -> (builder: Self)
        ensures
            builder@ == (ProducerOptionsView { name: Some(name@), ..self@ }),
    {
        let mut builder = self;
        builder.name = Some(name);
        builder
    }

    /// Sets the schema, under `schema_name`.
    pub fn with_schema(self, schema_name: String, schema_type: SchemaType) -> (builder: Self)
        ensures
            builder@ == (ProducerOptionsView {
                schema: Some((schema_name@, schema_type@)),
                ..self@
            }),
    {
        let mut builder = self;
        builder.schema = Some((schema_name, schema_type));
        builder
    }

    /// Sets the number of partitions of the topic.
    pub fn with_partitions(self, partitions: usize) -> (builder: Self)
        ensures
            builder@ == (ProducerOptionsView { partitions: Some(partitions), ..self@ }),
    {
        let mut builder = self;
        builder.partitions = Some(partitions);
        builder
    }

    /// Asks for reliable dispatch, with `options`.
    pub fn with_reliable_dispatch(self, options: ReliableOptions) -> (builder: Self)
        ensures
            builder@ == (ProducerOptionsView { reliable: Some(options), ..self@ }),
    {
        let mut builder = self;
        builder.reliable = Some(options);
        builder
    }

    /// The topic, if set.
    pub fn topic(&self) -> (topic: Option<&String>)
        ensures
            match topic {
                Some(text) => self@.topic == Some(text@),
                None => self@.topic is None,
            },
    {
        self.topic.as_ref()
    }

    /// The producer's name, if set.
    pub fn name(&self) -> (name: Option<&String>)
        ensures
            match name {
                Some(text) => self@.name == Some(text@),
                None => self@.name is None,
            },
    {
        self.name.as_ref()
    }

    /// The schema and its name, if set.
    pub fn schema(&self) -> (schema: Option<&(String, SchemaType)>)
        ensures
            match schema {
                Some(pair) => self@.schema == Some((pair.0@, pair.1@)),
                None => self@.schema is None,
            },
    {
        self.schema.as_ref()
    }

    /// The number of partitions, if set.
    pub fn partitions(&self) -> (partitions: Option<usize>)
        ensures
            partitions == self@.partitions,
    {
        self.partitions
    }

    /// The options of reliable dispatch, if asked for.
    pub fn reliable_options(&self) -> (options: Option<ReliableOptions>)
        ensures
            options == self@.reliable,
    {
        self.reliable
    }
}

/// A client of the service at one address.
#[derive(Debug)]
pub struct DanubeClient {
    url: String,
}

impl DanubeClient {
    /// The address of the service.
    pub closed spec fn url(&self) -> Seq<char> {
        self.url@
    }

    /// A client with no address yet.
    pub fn new() -> (client: Self)
        ensures
            client.url() == Seq::<char>::empty(),
    {
        DanubeClient { url: String::new() }
    }

    /// A builder for a client.
    pub fn builder() -> (builder: DanubeClientBuilder)
        ensures
            builder.url() == Seq::<char>::empty(),
    {
        DanubeClientBuilder { url: String::new() }
    }

    /// A builder for a producer, with nothing set.
    pub fn new_producer(&self) -> (builder: ProducerBuilder)
        ensures
            builder@ == (ProducerOptionsView {
                topic: None,
                name: None,
                schema: None,
                partitions: None,
                reliable: None,
            }),
    {
        ProducerBuilder::new()
    }

    /// The address of the service.
    pub fn address(&self) -> (url: &str)
        ensures
            url@ == self.url(),
    {
        self.url.as_str()
    }
}

/// Collects the options of a client.
#[derive(Debug)]
pub struct DanubeClientBuilder {
    url: String,
}

impl DanubeClientBuilder {
    /// The address set so far.
    pub closed spec fn url(&self) -> Seq<char> {
        self.url@
    }

    /// Sets the address of the service.
    pub fn service_url(self, url: &str) -> (builder: Self)
        ensures
            builder.url() == url@,
    {
        let mut builder = self;
        builder.url = String::from_str(url);
        builder
    }

    /// The client for the address set.
    pub fn build(self) -> (client: DanubeClient)
        ensures
            client.url() == self.url(),
    {
        DanubeClient { url: self.url }
    }
}

} // verus!
