//! The parts of a protobuf file description that route generation reads.

use crate::text::{path_segments, split_path, texts};
use vstd::prelude::*;

verus! {

/// One method of a service.
#[derive(Clone, Debug, PartialEq, Eq)]
pub struct MethodDescriptor {
    pub name: String,
    /// The fully qualified protobuf name of the request message.
    pub input_type: String,
    /// The fully qualified protobuf name of the response message.
    pub output_type: String,
    pub client_streaming: bool,
    pub server_streaming: bool,
}

/// One service with its methods, in the order of their declaration.
#[derive(Clone, Debug, PartialEq, Eq)]
pub struct ServiceDescriptor {
    pub name: String,
    pub methods: Vec<MethodDescriptor>,
}

/// One protobuf file: its package, its services and the names of the
/// messages it declares.
#[derive(Clone, Debug, PartialEq, Eq)]
pub struct FileDescriptor {
    pub package: String,
    pub services: Vec<ServiceDescriptor>,
    pub message_types: Vec<String>,
}

impl MethodDescriptor {
    /// A method can be bound when its name is one identifier: a name with
    /// exactly one dot-free segment.
    pub open spec fn well_formed(&self) -> bool {
        path_segments(self.name@).len() == 1
    }

    /// Whether the method can be bound.
    pub fn is_well_formed(&self) -> (r: bool)
        ensures
            r == self.well_formed(),
    {
        let segments = split_path(self.name.as_str());
        assert(texts(segments@).len() == segments.len());
        segments.len() == 1
    }
}

impl ServiceDescriptor {
    /// A service is well formed when each of its methods is.
    pub open spec fn well_formed(&self) -> bool {
        forall|i: int| 0 <= i < self.methods@.len() ==> (#[trigger] self.methods@[i]).well_formed()
    }

    /// Whether each method of the service can be bound.
    pub fn is_well_formed(&self) -> (r: bool)
        ensures
            r == self.well_formed(),
    {
        let mut i: usize = 0;
        while i < self.methods.len()
            invariant
                i <= self.methods.len(),
                forall|j: int| 0 <= j < i ==> (#[trigger] self.methods@[j]).well_formed(),
            decreases self.methods.len() - i,
        {
            if !self.methods[i].is_well_formed() {
                return false;
            }
            i += 1;
        }
        true
    }
}

impl FileDescriptor {
    /// A file is well formed when each of its services is.
    pub open spec fn well_formed(&self) -> bool {
        forall|i: int|
            0 <= i < self.services@.len() ==> (#[trigger] self.services@[i]).well_formed()
    }

    /// Whether each service of the file is well formed.
    pub fn is_well_formed(&self) -> (r: bool)
        ensures
            r == self.well_formed(),
    {
        let mut i: usize = 0;
        while i < self.services.len()
            invariant
                i <= self.services.len(),
                forall|j: int| 0 <= j < i ==> (#[trigger] self.services@[j]).well_formed(),
            decreases self.services.len() - i,
        {
            if !self.services[i].is_well_formed() {
                return false;
            }
            i += 1;
        }
        true
    }
}

} // verus!
