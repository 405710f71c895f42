//! Detection and decoding of TopCodes: circular black and white fiducial
//! markers that carry a 13-bit code in their outer ring.
//!
//! A [`scanner::Scanner`] holds the pixels of one image. Its scan makes two
//! passes. The first turns the pixels into black and white with a threshold
//! that follows the lighting, and flags the pixels where a line through the
//! image crosses the rings of a bullseye ([`ring`]). The second tries the
//! flagged pixels as centres of a symbol ([`search`]) and decodes the symbol
//! around each ([`topcode`], [`reading`]).
//!
//! All arithmetic is exact. Lengths are whole numbers of sub-pixels, 480 to
//! the pixel, and angles whole numbers of steps, 260 to the turn; cosine and
//! sine come from a table in fixed point ([`trig`]). Every function states
//! what it computes over a model of the image ([`field`]), and the laws that
//! relate them are proved beside them: the checksum, the reach of the
//! bullseye, canonical rotation ([`bits`]), the order and separation of the
//! symbols found ([`search`]), that no pixel of the first or last column is
//! flagged ([`border`]), and that an image of plain black holds no symbol
//! ([`uniform`]).

pub mod bits;
pub mod border;
pub mod candidate;
pub mod dump;
pub mod field;
pub mod order;
pub mod picture;
pub mod pixel;
pub mod reading;
pub mod ring;
pub mod scanner;
pub mod search;
pub mod topcode;
pub mod trig;
pub mod uniform;
pub mod utils;
