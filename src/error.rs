//! The library's error type.

use vstd::prelude::*;

verus! {

/// Errors of workflow definition, execution and storage.
#[derive(Debug, Clone, PartialEq, Eq)]
pub enum ActflowError {
    Engine(String),
    Config(String),
    Convert(String),
    Script(String),
    Exception { ecode: String, message: String },
    Runtime(String),
    Store(String),
    Process(String),
    Workflow(String),
    Node(String),
    Edge(String),
    Action(String),
    IoError(String),
    Queue(String),
}

/// The text an error displays.
pub open spec fn error_text(e: ActflowError) -> Seq<char> {
    match e {
        ActflowError::Exception { ecode, message } => seq!['e', 'c', 'o', 'd', 'e', ':', ' '] + ecode@ + seq![
            ',',
            ' ',
            'm',
            'e',
            's',
            's',
            'a',
            'g',
            'e',
            ':',
            ' ',
        ] + message@,
        ActflowError::Engine(m) => m@,
        ActflowError::Config(m) => m@,
        ActflowError::Convert(m) => m@,
        ActflowError::Script(m) => m@,
        ActflowError::Runtime(m) => m@,
        ActflowError::Store(m) => m@,
        ActflowError::Process(m) => m@,
        ActflowError::Workflow(m) => m@,
        ActflowError::Node(m) => m@,
        ActflowError::Edge(m) => m@,
        ActflowError::Action(m) => m@,
        ActflowError::IoError(m) => m@,
        ActflowError::Queue(m) => m@,
    }
}

impl ActflowError {
    /// The text of the error.
    pub fn to_string(&self) -> (r: String)
        ensures
            r@ == error_text(*self),
    {
        match self {
            ActflowError::Exception { ecode, message } => {
                proof {
                    reveal_strlit("ecode: ");
                    reveal_strlit(", message: ");
                }
                "ecode: ".to_owned().concat(ecode.as_str()).concat(", message: ").concat(message.as_str())
            },
            ActflowError::Engine(m) => m.clone(),
            ActflowError::Config(m) => m.clone(),
            ActflowError::Convert(m) => m.clone(),
            ActflowError::Script(m) => m.clone(),
            ActflowError::Runtime(m) => m.clone(),
            ActflowError::Store(m) => m.clone(),
            ActflowError::Process(m) => m.clone(),
            ActflowError::Workflow(m) => m.clone(),
            ActflowError::Node(m) => m.clone(),
            ActflowError::Edge(m) => m.clone(),
            ActflowError::Action(m) => m.clone(),
            ActflowError::IoError(m) => m.clone(),
            ActflowError::Queue(m) => m.clone(),
        }
    }
}

} // verus!
