//! The command-line options the server understands. The binary parses its
//! argument list outside the library and hands the values over in this
//! plain form.
use vstd::prelude::*;

verus! {

/// The two optional command-line options: the snapshot directory and the
/// snapshot file name.
#[derive(Debug)]
pub struct Args {
    pub dir: Option<String>,
    pub dbfilename: Option<String>,
}

} // verus!
