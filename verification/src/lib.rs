//! Tools for the Pāli of a dictionary in roman script: the alphabet with its
//! dictionary order, and what is shown of a head word's inflections.

pub mod all_words;
pub mod alphabet;
pub mod inflection_generator;
pub mod inflections;
pub mod text;
