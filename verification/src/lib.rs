//! Control logic of the Korpus voice: exciter selection, voice lifecycle, modal-bank mode
//! selection and coupling pairs, the pseudo-random draws that decorrelate modes, and the
//! fixed-size delay line of the plucked string. The signal arithmetic itself lives with the
//! host; everything here works on integers, flags and indices.

pub mod engine;
pub mod voice;
