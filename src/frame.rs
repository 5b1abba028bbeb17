//! Frame descriptors as the capture side reports them.
use vstd::prelude::*;
use vstd::string::StringSliceAdditionalSpecFns;

verus! {

/// The shape of one captured frame: its columns, rows, bit depth and channel
/// count. The pixel data itself lives with the capture device.
#[derive(Clone, Copy, Debug, PartialEq, Eq)]
pub struct Mat {
    /// Number of columns
    pub cols: u64,
    /// Number of rows
    pub rows: u64,
    /// Depth of this mat (its element type code)
    pub depth: u64,
    /// Channels of this mat
    pub channels: u64,
}

impl Mat {
    /// Returns the size of this matrix as (rows, cols).
    pub fn size(&self) -> (r: (usize, usize))
        ensures
            r.0 == self.rows as usize,
            r.1 == self.cols as usize,
    {
        (self.rows as usize, self.cols as usize)
    }

    /// True when the frame is square, the only shape the analysis accepts.
    pub fn is_square(&self) -> (r: bool)
        ensures
            r == (self.rows == self.cols),
    {
        self.rows == self.cols
    }
}

/// The bytes of a string as C `char`s, for handing a path to the capture
/// library.
pub trait CString {
    /// The bytes the string is made of.
    spec fn byte_seq(&self) -> Seq<u8>;

    /// Each byte of the string as a signed C `char`, in order.
    fn c_string(&self) -> (r: Vec<i8>)
        ensures
            r@ == self.byte_seq().map_values(|b: u8| b as i8),
    ;
}

impl CString for str {
    open spec fn byte_seq(&self) -> Seq<u8> {
        self.spec_bytes()
    }

    fn c_string(&self) -> (r: Vec<i8>) {
        let bytes = self.as_bytes();
        let mut r: Vec<i8> = Vec::new();
        let mut i: usize = 0;
        while i < bytes.len()
            invariant
                bytes@ == self.spec_bytes(),
                i <= bytes@.len(),
                r@ == bytes@.subrange(0, i as int).map_values(|b: u8| b as i8),
            decreases bytes@.len() - i,
        {
            r.push(bytes[i] as i8);
            i = i + 1;
            assert(r@ =~= bytes@.subrange(0, i as int).map_values(|b: u8| b as i8));
        }
        assert(bytes@.subrange(0, i as int) =~= bytes@);
        r
    }
}

} // verus!
