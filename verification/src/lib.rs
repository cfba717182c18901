//! The logic of a guitar amplifier made of neural models: the stages of its chain, the parameters
//! they answer to, and the two hosts and the one screen that its user sees.
//!
//! The audio thread runs four stages in order. [`gate`] and [`trim`] prepare the signal, [`nam`]
//! runs a model, through a pair of resamplers where the model has a rate of its own
//! ([`resample`]), and [`ir`] convolves the result with an impulse response. The last two can be
//! given another resource while they play: [`handover`] fades from one to the other and keeps the
//! one it no longer needs until [`command`] has taken it back through a [`ring`].
//!
//! [`registry`] lists the parameters, and [`identity`] shows that no two are alike. [`app_host`] is
//! the standalone application behind its window, [`clap_host`] the plugin behind its editor, and
//! [`ui_app`] the screen that both show through [`ui_host`].
//!
//! A sample is a [`single::Single`], the bits of a floating-point number. What is computed with
//! samples, sample by sample or block by block, is asked of the caller: see [`dsp`].

pub mod app_host;
pub mod bypass;
pub mod clap_host;
pub mod command;
pub mod descriptor;
pub mod dsp;
pub mod gate;
pub mod handover;
pub mod identity;
pub mod ir;
pub mod meters;
pub mod nam;
pub mod param;
pub mod prepare;
pub mod registry;
pub mod resample;
pub mod resource;
pub mod ring;
pub mod single;
pub mod stage_io;
pub mod state;
pub mod text;
pub mod trim;
pub mod ui_app;
pub mod ui_host;
