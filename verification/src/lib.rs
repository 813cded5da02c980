//! Survey point files, survey commands and the drawing they produce.

pub mod adjust;
pub mod cli;
pub mod command_laws;
pub mod console;
pub mod dispatch;
pub mod drawing;
pub mod drawing_laws;
pub mod entities;
pub mod import;
pub mod layers;
pub mod line_laws;
pub mod lists;
pub mod message_laws;
pub mod number;
pub mod number_laws;
pub mod operation_laws;
pub mod plan;
pub mod plan_laws;
pub mod planning_laws;
pub mod plans;
pub mod pnezd;
pub mod point_laws;
pub mod program_laws;
pub mod records;
pub mod report_laws;
pub mod reports;
pub mod request_laws;
pub mod requests;
pub mod results;
pub mod session_laws;
pub mod surface_laws;
pub mod surfaces;
pub mod text;
pub mod text_laws;
