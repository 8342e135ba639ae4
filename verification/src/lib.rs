//! A photo retouching engine: parameters, presets, analysis rules, spot
//! detection and healing, geometry and export.

pub mod advanced;
pub mod agent;
pub mod analyze;
pub mod auto;
pub mod auto_color;
pub mod auto_laws;
pub mod color_engine;
pub mod color_laws;
pub mod components;
pub mod detail;
pub mod detect_laws;
pub mod detect_spots;
pub mod develop;
pub mod develop_laws;
pub mod double;
pub mod export;
pub mod finish_laws;
pub mod fixed;
pub mod freqsep;
pub mod geometry;
pub mod grading_laws;
pub mod guardrail;
pub mod heal;
pub mod healing_laws;
pub mod inpaint_fill;
pub mod inscribed;
pub mod lch;
pub mod measure_laws;
pub mod median;
pub mod options;
pub mod order;
pub mod params;
pub mod patch;
pub mod patchmatch;
pub mod perceptual;
pub mod perspective;
pub mod picture_laws;
pub mod pipeline;
pub mod poisson;
pub mod preset;
pub mod raster;
pub mod reference;
pub mod schema;
pub mod selftest;
pub mod sharpen;
pub mod single;
pub mod source_search;
pub mod spatial;
pub mod spot;
pub mod text;
pub mod tone_laws;
pub mod tonemap;
pub mod transfer;
pub mod weight_laws;
