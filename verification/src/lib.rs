//! The discrete core of the Aphelion solar-system simulator: body handles and
//! categories, the catalogue of integration schemes, calendar arithmetic on
//! Julian day numbers, the topology of the sphere mesh, the renderer's buffer
//! bookkeeping and the keyboard command map.
//!
//! Everything here is integer or symbolic logic whose behaviour is stated in
//! `requires`/`ensures` and proved. The floating-point physics — forces,
//! integrators, orbital elements, the camera — is built on top of it by the
//! application crate.

pub mod body;
pub mod input;
pub mod integrator;
pub mod mesh;
pub mod render;
pub mod time;

pub use body::{find_body, first_luminous, BodyId, BodyKind};
pub use input::{key_command, KeyCommand, KeyPress};
pub use integrator::{cycle_integrator, Integrator};
pub use mesh::uv_sphere_indices;
pub use time::{format_iso8601, gregorian_to_julian_day, julian_day_to_gregorian, J2000_JULIAN_DAY_NUMBER};
