//! Rendering configuration: compact versus pretty output, indentation width,
//! the attribute-wrap threshold, and the entity-escaping mode.

use vstd::prelude::*;

verus! {

/// How reserved characters and ASCII control characters are written out.
#[derive(Debug, Clone, Copy, PartialEq, Eq, Structural)]
pub enum EntityMode {
    /// `&`, `'`, `"`, `<`, `>` become the five named entities; control
    /// characters become numeric hex entities.
    Standard,
    /// The five reserved characters and all control characters become
    /// numeric hex entities.
    Hex,
}

impl Default for EntityMode {
    fn default() -> (r: Self)
        ensures
            r == EntityMode::Standard,
    {
        Self::Standard
    }
}

/// Controls how a document is rendered.
#[derive(Debug, Clone)]
pub struct Config {
    /// Insert newlines and indentation when true; minimal output when false.
    pub is_pretty: bool,
    /// Spaces per nesting level; only meaningful when `is_pretty` is set.
    pub indent: usize,
    /// Threshold for the attribute-wrap heuristic: when pretty and the
    /// estimated attribute line is longer than this, attributes go one per
    /// line.
    pub max_line_length: usize,
    /// The entity-escaping strategy for text and attribute values.
    pub entity_mode: EntityMode,
}

impl Config {
    /// The configuration that `Default` returns: compact output.
    pub open spec fn spec_default() -> Config {
        Config {
            is_pretty: false,
            indent: 0,
            max_line_length: 0,
            entity_mode: EntityMode::Standard,
        }
    }

    /// A ready-made pretty-printing configuration: two-space indentation and
    /// attribute wrapping beyond 120 estimated characters.
    pub fn default_pretty() -> (c: Self)
        ensures
            c == (Config {
                is_pretty: true,
                indent: 2,
                max_line_length: 120,
                entity_mode: EntityMode::Standard,
            }),
    {
        Config {
            is_pretty: true,
            indent: 2,
            max_line_length: 120,
            entity_mode: EntityMode::Standard,
        }
    }

    /// The configuration that a set of generic formatting directives selects:
    /// the alternate flag asks for the pretty preset, a width forces pretty
    /// mode and sets the indent, and a precision forces pretty mode and sets
    /// the wrap threshold.
    pub open spec fn spec_from_format(
        alternate: bool,
        width: Option<usize>,
        precision: Option<usize>,
    ) -> Config {
        let base = if alternate {
            Config {
                is_pretty: true,
                indent: 2,
                max_line_length: 120,
                entity_mode: EntityMode::Standard,
            }
        } else {
            Config::spec_default()
        };
        let with_width = match width {
            Some(w) => Config { is_pretty: true, indent: w, ..base },
            None => base,
        };
        match precision {
            Some(p) => Config { is_pretty: true, max_line_length: p, ..with_width },
            None => with_width,
        }
    }

    /// Maps generic formatting directives (alternate selector, optional
    /// width, optional precision) onto a `Config`, so that a host formatting
    /// protocol can drive the renderer.
    pub fn from_format(alternate: bool, width: Option<usize>, precision: Option<usize>) -> (c:
        Config)
        ensures
            c == Config::spec_from_format(alternate, width, precision),
    {
        let mut config = if alternate {
            Config::default_pretty()
        } else {
            Config::default()
        };

        if let Some(w) = width {
            config.is_pretty = true;
            config.indent = w;
        }

        if let Some(p) = precision {
            config.is_pretty = true;
            config.max_line_length = p;
        }

        config
    }
}

impl Default for Config {
    fn default() -> (c: Self)
        ensures
            c == Config::spec_default(),
    {
        Config { is_pretty: false, indent: 0, max_line_length: 0, entity_mode: EntityMode::Standard }
    }
}

} // verus!
