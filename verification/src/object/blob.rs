//! A blob: a stored file's raw content.

use vstd::prelude::*;

verus! {

use crate::object::spec_object_buffer;
use crate::object::Object;
use crate::object::ObjectBuffer;
use crate::object::ObjectType;

/// In-memory representation of a blob object.
pub struct Blob {
    content: Vec<u8>,
}

impl View for Blob {
    type V = Seq<u8>;

    closed spec fn view(&self) -> Seq<u8> {
        self.content@
    }
}

impl Blob {
    pub fn new(content: Vec<u8>) -> (r: Self)
        ensures
            r@ == content@,
    {
        Blob { content }
    }
}

impl Object for Blob {
    open spec fn buffer_bytes(&self) -> Seq<u8> {
        spec_object_buffer(ObjectType::Blob, self@)
    }

    fn to_buffer(&self) -> (r: ObjectBuffer)
        ensures
            r@ == self.buffer_bytes(),
    {
        ObjectBuffer::new(ObjectType::Blob, self.content.as_slice())
    }
}

} // verus!
