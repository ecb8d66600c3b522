//! Parsing of AviUtl text-object strings: escape sequences and `<...>` control sequences,
//! and writing the parsed elements back as text.

mod construct;
pub mod agreement;
pub mod control;
pub mod decimal;
pub mod display;
pub mod element;
pub mod facts;
pub mod laws;
pub mod reading;
pub mod roundtrip;
pub mod scan;
pub mod tags;
pub mod text;

pub use control::{control_sequences_readable, parse_control, parse_text};
pub use decimal::Decimal;
pub use element::{
    AxisValue, Code, CodeType, ColorType, ColorValue, Element, Elements, FontCommand,
    FontDecoration, FontDecorationKind, ParseElementError, ScalarValue, TextDecoration,
    TimeValue,
};
pub use text::{object_index_to_string_index, parse_escape};
