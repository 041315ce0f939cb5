//! Rendering findings: the text of the CSV report, the table's labels and the SARIF results.

pub mod csv;
pub mod sarif;
pub mod table;
