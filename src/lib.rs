//! Signal-processing building blocks for mono 16-bit audio: a RIFF/WAVE
//! container decoder, the index structure of a radix-2 transform, the shape
//! rule of a windowed-sinc filter design, and a padded sliding window of
//! three items.

pub mod error;
pub mod fft;
pub mod filter;
pub mod le;
pub mod trigram;
pub mod wave;

pub use error::DspError;
pub use fft::{
    butterfly_params, compute_index_weight, compute_stage, count_stage, indices, reverse_bits,
    transform, Butterfly,
};
pub use filter::fir_taps;
pub use trigram::{Trigram, Trigrams};
pub use wave::{decode_wave_mono16, DataHeader, Format, FormatHeader, Riff, SubcHeader, Wave};
