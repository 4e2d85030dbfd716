//! Scan configuration and the presets offered when a session is created.

use vstd::prelude::*;

verus! {

/// Which duplicate detectors a scan runs, and their parameters.
#[derive(Clone, Debug, PartialEq, Eq, Structural)]
pub struct ScanConfig {
    pub exact_hash: bool,
    pub visual_similar: bool,
    pub burst_detection: bool,
    pub filename_ranking: bool,
    /// Largest Hamming distance between perceptual hashes of similar photos.
    pub phash_threshold: u8,
    /// Longest gap, in seconds, between the first and last shot of a burst.
    pub burst_window_secs: u32,
    /// Whether camera RAW files are paired with the images they accompany.
    pub include_raw: bool,
}

/// The default configuration: every detector on, threshold 6, a
/// two-second burst window, RAW pairing off.
pub open spec fn default_config() -> ScanConfig {
    ScanConfig {
        exact_hash: true,
        visual_similar: true,
        burst_detection: true,
        filename_ranking: true,
        phash_threshold: 6,
        burst_window_secs: 2,
        include_raw: false,
    }
}

impl Default for ScanConfig {
    fn default() -> (c: Self)
        ensures
            c == default_config(),
    {
        ScanConfig {
            exact_hash: true,
            visual_similar: true,
            burst_detection: true,
            filename_ranking: true,
            phash_threshold: 6,
            burst_window_secs: 2,
            include_raw: false,
        }
    }
}

/// Named starting points for a scan configuration.
#[derive(Clone, Copy, Debug, PartialEq, Eq, Structural)]
pub enum ScanPreset {
    VisualSimilar,
    ExactOnly,
    BurstTimeWindow,
    Custom,
}

impl Default for ScanPreset {
    fn default() -> (p: Self)
        ensures
            p == ScanPreset::VisualSimilar,
    {
        ScanPreset::VisualSimilar
    }
}

/// The configuration a preset stands for.
pub open spec fn preset_config(p: ScanPreset) -> ScanConfig {
    match p {
        ScanPreset::ExactOnly => ScanConfig {
            exact_hash: true,
            visual_similar: false,
            burst_detection: false,
            filename_ranking: false,
            ..default_config()
        },
        ScanPreset::VisualSimilar => default_config(),
        ScanPreset::BurstTimeWindow => ScanConfig {
            exact_hash: true,
            visual_similar: true,
            burst_detection: true,
            filename_ranking: true,
            burst_window_secs: 3,
            ..default_config()
        },
        ScanPreset::Custom => default_config(),
    }
}

impl ScanPreset {
    /// The configuration this preset stands for.
    pub fn to_config(self) -> (c: ScanConfig)
        ensures
            c == preset_config(self),
    {
        match self {
            ScanPreset::ExactOnly => ScanConfig {
                exact_hash: true,
                visual_similar: false,
                burst_detection: false,
                filename_ranking: false,
                ..ScanConfig::default()
            },
            ScanPreset::VisualSimilar => ScanConfig::default(),
            ScanPreset::BurstTimeWindow => ScanConfig {
                exact_hash: true,
                visual_similar: true,
                burst_detection: true,
                filename_ranking: true,
                burst_window_secs: 3,
                ..ScanConfig::default()
            },
            ScanPreset::Custom => ScanConfig::default(),
        }
    }
}

/// The configuration a new session is created with: the preset's
/// configuration, replaced by the custom one for the `Custom` preset, and
/// otherwise taking only `include_raw` from a custom configuration.
pub open spec fn session_config(preset: ScanPreset, custom: Option<ScanConfig>) -> ScanConfig {
    match custom {
        None => preset_config(preset),
        Some(c) => if preset == ScanPreset::Custom {
            c
        } else {
            ScanConfig { include_raw: c.include_raw, ..preset_config(preset) }
        },
    }
}

/// Resolves the configuration of a new session from its preset and an
/// optional custom configuration.
pub fn resolve_session_config(preset: ScanPreset, custom: Option<ScanConfig>) -> (c: ScanConfig)
    ensures
        c == session_config(preset, custom),
{
    let mut scan_config = preset.to_config();
    if let Some(custom) = custom {
        if preset == ScanPreset::Custom {
            scan_config = custom;
        } else {
            scan_config.include_raw = custom.include_raw;
        }
    }
    scan_config
}

} // verus!
