//! The numeric fields a block template must supply before a mining job can
//! be built from it, and the range each must lie in.

use vstd::prelude::*;

verus! {

/// Why a block template cannot be mined.
#[derive(Debug, Clone, Copy, PartialEq, Eq)]
pub enum TemplateError {
    /// The compact target is not exactly four bytes (its length is given).
    BitsLength(usize),
    /// The template time does not fit the header's `u32` timestamp.
    TimeOutOfRange(u64),
    /// The height does not fit the coinbase height push (`i64`).
    HeightOutOfRange(u64),
    /// The version does not fit the header's signed `i32` version.
    VersionOutOfRange(u32),
}

/// The template fields in the widths the header and coinbase use.
#[derive(Debug, Clone, Copy, PartialEq, Eq)]
pub struct TemplateFields {
    /// The compact target, decoded big-endian from the template's bytes.
    pub bits: u32,
    /// The header timestamp.
    pub time: u32,
    /// The block height for the coinbase height push.
    pub height: i64,
    /// The header version.
    pub version: i32,
}

/// The big-endian `u32` of four bytes.
pub open spec fn be32_value(b: Seq<u8>) -> u32 {
    ((b[0] as u32) << 24u32) | ((b[1] as u32) << 16u32) | ((b[2] as u32) << 8u32) | (b[3] as u32)
}

/// The checked fields of a template, or the first check it fails: the
/// compact target must be four bytes, the time must fit `u32`, the height
/// `i64` and the version `i32`.
pub open spec fn template_fields_spec(bits: Seq<u8>, current_time: u64, height: u64, version: u32) -> Result<
    TemplateFields,
    TemplateError,
> {
    if bits.len() != 4 {
        Err(TemplateError::BitsLength(bits.len() as usize))
    } else if current_time > u32::MAX {
        Err(TemplateError::TimeOutOfRange(current_time))
    } else if height > i64::MAX {
        Err(TemplateError::HeightOutOfRange(height))
    } else if version > i32::MAX {
        Err(TemplateError::VersionOutOfRange(version))
    } else {
        Ok(
            TemplateFields {
                bits: be32_value(bits),
                time: current_time as u32,
                height: height as i64,
                version: version as i32,
            },
        )
    }
}

/// Check and narrow a template's numeric fields, in the order a job is
/// built: the compact target first, then the time, the height and the
/// version.
pub fn template_fields(bits: &[u8], current_time: u64, height: u64, version: u32) -> (r: Result<
    TemplateFields,
    TemplateError,
>)
    ensures
        r == template_fields_spec(bits@, current_time, height, version),
{
    if bits.len() != 4 {
        return Err(TemplateError::BitsLength(bits.len()));
    }
    let nbits = ((bits[0] as u32) << 24u32) | ((bits[1] as u32) << 16u32) | ((bits[2] as u32)
        << 8u32) | (bits[3] as u32);
    if current_time > 0xffff_ffff {
        return Err(TemplateError::TimeOutOfRange(current_time));
    }
    if height > 0x7fff_ffff_ffff_ffff {
        return Err(TemplateError::HeightOutOfRange(height));
    }
    if version > 0x7fff_ffff {
        return Err(TemplateError::VersionOutOfRange(version));
    }
    Ok(
        TemplateFields {
            bits: nbits,
            time: current_time as u32,
            height: height as i64,
            version: version as i32,
        },
    )
}

} // verus!
