//! Upstream HTTP fetch helpers shared by the index and download routes.

use vstd::prelude::*;

verus! {

/// An upstream fetch failure: either a transport/decode error or a body that
/// exceeded the configured size limit.
pub enum FetchError {
    /// Connection, TLS, or decode failure, with its description.
    Http(String),
    /// Body exceeded the size limit (declared or observed).
    TooLarge,
}

impl FetchError {
    /// The text that describes the failure.
    pub open spec fn text(self) -> Seq<char> {
        match self {
            FetchError::Http(e) => e@,
            FetchError::TooLarge => "response body too large"@,
        }
    }

    /// Describes the failure.
    pub fn message(&self) -> (r: String)
        ensures
            r@ == self.text(),
    {
        match self {
            FetchError::Http(e) => e.clone(),
            FetchError::TooLarge => "response body too large".to_owned(),
        }
    }
}

/// A response body that is being read into memory, capped at a number of
/// bytes.
pub struct CappedBody {
    max: usize,
    data: Vec<u8>,
}

impl CappedBody {
    #[verifier::type_invariant]
    spec fn inv(self) -> bool {
        self.data@.len() <= self.max
    }

    /// The largest number of bytes that the body may have.
    pub closed spec fn max(self) -> usize {
        self.max
    }

    /// The bytes that have been read.
    pub closed spec fn data(self) -> Seq<u8> {
        self.data@
    }

    /// Starts reading a body.
    ///
    /// Rejects up front when the declared length already exceeds the cap.
    pub fn new(content_length: Option<u64>, max: usize) -> (r: Result<CappedBody, FetchError>)
        ensures
            match r {
                Ok(body) => (content_length is Some ==> content_length->0 <= max) && body.max() == max
                    && body.data() == Seq::<u8>::empty(),
                Err(e) => e is TooLarge && content_length is Some && content_length->0 > max,
            },
    {
        if let Some(len) = content_length {
            if len > max as u64 {
                return Err(FetchError::TooLarge);
            }
        }
        Ok(CappedBody { max, data: Vec::new() })
    }

    /// Appends a chunk of the body.
    ///
    /// Rejects a chunk that would take the body over the cap, so a response
    /// without a declared length cannot exhaust memory. The body is then left
    /// as it was; it is never truncated to fit.
    pub fn push(&mut self, chunk: &[u8]) -> (r: Result<(), FetchError>)
        ensures
            final(self).max() == old(self).max(),
            match r {
                Ok(_) => final(self).data() == old(self).data() + chunk@ && final(self).data().len()
                    <= old(self).max(),
                Err(e) => e is TooLarge && final(self).data() == old(self).data() && old(
                    self,
                ).data().len() + chunk@.len() > old(self).max(),
            },
    {
        proof {
            use_type_invariant(&*self);
        }
        let max: usize = self.max;
        let used: usize = self.data.len();
        if chunk.len() > max - used {
            return Err(FetchError::TooLarge);
        }
        let mut data: Vec<u8> = Vec::new();
        std::mem::swap(&mut data, &mut self.data);
        let ghost before = data@;
        let mut i: usize = 0;
        while i < chunk.len()
            invariant
                i <= chunk@.len(),
                data@ == before + chunk@.take(i as int),
            decreases chunk@.len() - i,
        {
            data.push(chunk[i]);
            i = i + 1;
            assert(data@ =~= before + chunk@.take(i as int));
        }
        assert(chunk@.take(i as int) =~= chunk@);
        self.data = data;
        Ok(())
    }

    /// Gets the whole body.
    pub fn finish(self) -> (r: Vec<u8>)
        ensures
            r@ == self.data(),
            r@.len() <= self.max(),
    {
        proof {
            use_type_invariant(&self);
        }
        self.data
    }
}

/// A failure is described by its own text, an oversized body by a fixed one.
pub proof fn failures_are_described(e: String)
    ensures
        FetchError::Http(e).text() == e@,
        FetchError::TooLarge.text() == "response body too large"@,
{
}

} // verus!
