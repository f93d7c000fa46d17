//! Data kept in a pocket dimension, the cache that modules store into.

use vstd::prelude::*;
use crate::error::Error;

verus! {

/// The kind of payload a piece of cached data carries.
#[derive(Debug, Clone, PartialEq, Eq, Structural)]
pub enum DimensionDataType {
    Json,
    String,
    Buffer,
}

/// Where a piece of cached data is.
#[derive(Debug, Clone, PartialEq, Eq)]
pub enum DimensionDataInner {
    /// In memory, standing for a file of that name.
    Buffer { name: String, buffer: Vec<u8> },
    /// In memory only.
    BufferNoFile { name: String, internal: Vec<u8> },
    /// In a file at `path`.
    Path { name: Option<String>, path: String },
}

/// A piece of cached data.
#[derive(Debug, Clone, PartialEq, Eq)]
pub struct DimensionData(pub DimensionDataInner);

/// A copy of a slice of bytes.
fn copy_bytes(bytes: &[u8]) -> (copy: Vec<u8>)
    ensures
        copy@ == bytes@,
{
    let mut copy: Vec<u8> = Vec::new();
    let mut i: usize = 0;
    while i < bytes.len()
        invariant
            i <= bytes@.len(),
            copy@ == bytes@.take(i as int),
        decreases bytes@.len() - i,
    {
        copy.push(bytes[i]);
        assert(bytes@.take(i + 1) == bytes@.take(i as int).push(bytes@[i as int]));
        i = i + 1;
    }
    assert(bytes@.take(bytes@.len() as int) == bytes@);
    copy
}

impl DimensionData {
    /// Data in the file at `path`, under the name `name`.
    pub fn from_path(name: &str, path: &str) -> (data: Self)
        ensures
            data.0 matches DimensionDataInner::Path { name: Some(n), path: p } && n@ == name@
                && p@ == path@,
    {
        DimensionData(DimensionDataInner::Path { name: Some(name.to_owned()), path: path.to_owned() })
    }

    /// Data in memory that stands for a file called `name`.
    pub fn from_buffer(name: &str, buffer: &[u8]) -> (data: Self)
        ensures
            data.0 matches DimensionDataInner::Buffer { name: n, buffer: b } && n@ == name@ && b@
                == buffer@,
    {
        let name = name.to_owned();
        let buffer = copy_bytes(buffer);
        DimensionData(DimensionDataInner::Buffer { name, buffer })
    }

    /// Data that is in memory only.
    pub fn from_buffer_nofile(name: &str, internal: &[u8]) -> (data: Self)
        ensures
            data.0 matches DimensionDataInner::BufferNoFile { name: n, internal: b } && n@ == name@
                && b@ == internal@,
    {
        let name = name.to_owned();
        let internal = copy_bytes(internal);
        DimensionData(DimensionDataInner::BufferNoFile { name, internal })
    }

    /// Where the data is.
    pub fn get_inner(&self) -> (inner: &DimensionDataInner)
        ensures
            *inner == self.0,
    {
        &self.0
    }

    /// The name of the data; data in a file may have none.
    pub fn name(&self) -> (name: Result<String, Error>)
        ensures
            match self.0 {
                DimensionDataInner::Buffer { name: n, .. } => name == Ok::<String, Error>(n),
                DimensionDataInner::BufferNoFile { name: n, .. } => name == Ok::<String, Error>(n),
                DimensionDataInner::Path { name: Some(n), .. } => name == Ok::<String, Error>(n),
                DimensionDataInner::Path { name: None, .. } => name == Err::<String, Error>(
                    Error::Other,
                ),
            },
    {
        match &self.0 {
            DimensionDataInner::Buffer { name, .. } => Ok(name.clone()),
            DimensionDataInner::BufferNoFile { name, .. } => Ok(name.clone()),
            DimensionDataInner::Path { name, .. } => match name {
                Some(name) => Ok(name.clone()),
                None => Err(Error::Other),
            },
        }
    }

    /// The path of the file the data is in; data in memory has none.
    pub fn path(&self) -> (path: Result<String, Error>)
        ensures
            match self.0 {
                DimensionDataInner::Path { path: p, .. } => path == Ok::<String, Error>(p),
                _ => path == Err::<String, Error>(Error::Other),
            },
    {
        match &self.0 {
            DimensionDataInner::Path { path, .. } => Ok(path.clone()),
            _ => Err(Error::Other),
        }
    }

    /// Copies data that is in memory only into `buffer`, which must be of
    /// the data's length. Other data is not copied.
    pub fn write_to_buffer(&self, buffer: &mut Vec<u8>) -> (done: Result<(), Error>)
        requires
            self.0 matches DimensionDataInner::BufferNoFile { internal, .. } ==> old(buffer)@.len()
                == internal@.len(),
        ensures
            match self.0 {
                DimensionDataInner::BufferNoFile { internal, .. } => done == Ok::<(), Error>(())
                    && final(buffer)@ == internal@,
                _ => done == Err::<(), Error>(Error::Other) && final(buffer)@ == old(buffer)@,
            },
    {
        match &self.0 {
            DimensionDataInner::BufferNoFile { internal, .. } => {
                let mut i: usize = 0;
                while i < internal.len()
                    invariant
                        i <= internal@.len(),
                        buffer@.len() == internal@.len(),
                        buffer@.take(i as int) == internal@.take(i as int),
                    decreases internal@.len() - i,
                {
                    buffer.set(i, internal[i]);
                    assert(buffer@.take(i + 1) == buffer@.take(i as int).push(internal@[i as int]));
                    assert(internal@.take(i + 1) == internal@.take(i as int).push(
                        internal@[i as int],
                    ));
                    i = i + 1;
                }
                assert(buffer@.take(buffer@.len() as int) == buffer@);
                assert(internal@.take(internal@.len() as int) == internal@);
                Ok(())
            },
            _ => Err(Error::Other),
        }
    }
}

} // verus!
