//! Host-side core of a serial debug probe for ARM Cortex-M targets.
//!
//! The probe speaks a framed command protocol over a serial link. This
//! library builds the request frames and classifies the replies
//! ([`protocol`]), plans the exchanges of a device session ([`loader`]),
//! extracts the flash sections of a program image ([`elf_reader`]), and
//! verifies the target's flash against them ([`verification`]). What a
//! verification run proves is stated in [`soundness`].
//!
//! Nothing here touches a device: callers own the serial channel and the
//! files, and hand bytes in and out.

pub mod checksum;
pub mod elf_reader;
pub mod loader;
pub mod models;
pub mod protocol;
pub mod registers;
pub mod report;
pub mod serial;
pub mod soundness;
pub mod text;
pub mod verification;
