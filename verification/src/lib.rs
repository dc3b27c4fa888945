//! Verified core of a DrumSynth (`.ds`) instrument library: the envelope
//! text format, the small integer codecs of the `.ds` sections, the
//! mutation databases used to derive new instruments from a corpus, and the
//! edit history of an instrument.
pub mod envelope;
pub mod envelope_laws;
pub mod point_list;
pub mod text;
pub mod random;
pub mod mutate;
pub mod variant;
pub mod sections;
pub mod composite;
pub mod history;
