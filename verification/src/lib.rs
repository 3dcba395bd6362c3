//! Throrgan: a batch music compiler. It turns a line-oriented notation
//! text (instruments, tempo, timed notes) into fixed-point frequency-domain
//! chunks and 16-bit PCM container bytes. All quantities are carried as
//! scaled integers: frequencies in millihertz, volumes and damping factors
//! in thousandths, spectral power in millionths.
use vstd::prelude::*;

pub mod errors;
pub mod generator;
pub mod instrument;
pub mod output;
pub mod parse;
pub mod text;

verus! {

/// True exactly when `name` ends in the recognized container extension
/// `.wav`; the compile entry point must refuse any other output name.
pub fn valid_output_name(name: &str) -> (r: bool)
    ensures
        r <==> (name@.len() >= 4 && name@.subrange(name@.len() - 4, name@.len() as int)
            == ".wav"@),
{
    let n = name.unicode_len();
    if n < 4 {
        return false;
    }
    let tail = name.substring_char(n - 4, n);
    proof {
        reveal_strlit(".wav");
    }
    let ok = tail.get_char(0) == '.' && tail.get_char(1) == 'w' && tail.get_char(2) == 'a'
        && tail.get_char(3) == 'v';
    proof {
        if ok {
            assert(tail@ =~= ".wav"@);
        }
        if tail@ == ".wav"@ {
            assert(tail@[0] == '.' && tail@[1] == 'w' && tail@[2] == 'a' && tail@[3] == 'v');
        }
    }
    ok
}

} // verus!
