//! Verified core of an annual training portal: quiz selection and scoring,
//! certificate records and their PDF layout, and the pages the portal serves.

pub mod badge;
pub mod certificate;
pub mod pages;
pub mod pdf;
pub mod quiz;
pub mod strmap;
pub mod submission;
pub mod text;
