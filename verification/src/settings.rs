//! What a render is asked to do, validated once before any ray is traced.

use vstd::prelude::*;
use crate::canvas::{Canvas, MAX_SIDE};
use crate::partition::{stripe, worker_rows};
use crate::progress::Progress;
use crate::trace::Path;

verus! {

/// Why a render cannot be set up as asked.
#[derive(Clone, Copy, Debug, PartialEq, Eq, Structural)]
pub enum SettingsError {
    /// The image has no columns.
    NoWidth,
    /// The image has no rows.
    NoHeight,
    /// The image has more columns than a canvas can hold.
    TooWide,
    /// The image has more rows than a canvas can hold.
    TooHigh,
    /// No sample is taken per pixel.
    NoSamples,
    /// There is no worker to render anything.
    NoWorkers,
}

/// What is wrong with the given settings, the first fault in the order
/// width, height, samples, workers; `None` where nothing is.
pub open spec fn fault(width: u32, height: u32, samples_per_pixel: u32, workers: u32) -> Option<
    SettingsError,
> {
    if width == 0 {
        Some(SettingsError::NoWidth)
    } else if width > MAX_SIDE {
        Some(SettingsError::TooWide)
    } else if height == 0 {
        Some(SettingsError::NoHeight)
    } else if height > MAX_SIDE {
        Some(SettingsError::TooHigh)
    } else if samples_per_pixel == 0 {
        Some(SettingsError::NoSamples)
    } else if workers == 0 {
        Some(SettingsError::NoWorkers)
    } else {
        None
    }
}

/// The size of the worker pool for a machine that reports `reported` cores:
/// the low 32 bits of the report.
pub open spec fn pool_size(reported: usize) -> u32 {
    (reported as int % 0x1_0000_0000) as u32
}

/// `num_cpus::get_physical`: the number of physical cores that the machine
/// reports. Nothing is claimed of the number.
#[verifier::external_body]
fn physical_cores() -> (cores: usize) {
    num_cpus::get_physical()
}

/// The size of the worker pool for a machine that reports `reported` cores.
pub fn workers_for(reported: usize) -> (workers: u32)
    ensures
        workers == pool_size(reported),
{
    let wide: u64 = reported as u64;
    (wide % 0x1_0000_0000) as u32
}

/// The validated settings of a render.
#[derive(Clone, Copy, Debug)]
pub struct RenderSettings {
    width: u32,
    height: u32,
    samples_per_pixel: u32,
    max_depth: u8,
    workers: u32,
}

impl RenderSettings {
    #[verifier::type_invariant]
    spec fn well_formed(self) -> bool {
        fault(self.width, self.height, self.samples_per_pixel, self.workers) is None
    }

    /// The number of columns of the image.
    pub closed spec fn spec_width(self) -> u32 {
        self.width
    }

    /// The number of rows of the image.
    pub closed spec fn spec_height(self) -> u32 {
        self.height
    }

    /// The number of samples that are averaged into one pixel.
    pub closed spec fn spec_samples_per_pixel(self) -> u32 {
        self.samples_per_pixel
    }

    /// The number of bounces that a path may take.
    pub closed spec fn spec_max_depth(self) -> u8 {
        self.max_depth
    }

    /// The number of workers that share the rows.
    pub closed spec fn spec_workers(self) -> u32 {
        self.workers
    }

    /// Whether `self` holds exactly the given values.
    pub open spec fn holds(
        self,
        width: u32,
        height: u32,
        samples_per_pixel: u32,
        max_depth: u8,
        workers: u32,
    ) -> bool {
        &&& self.spec_width() == width
        &&& self.spec_height() == height
        &&& self.spec_samples_per_pixel() == samples_per_pixel
        &&& self.spec_max_depth() == max_depth
        &&& self.spec_workers() == workers
    }

    /// Validates the settings of a render. They are refused with the first
    /// fault that `fault` finds, and accepted as they are where it finds
    /// none. A depth of 0 is accepted: it gives a black image.
    pub fn new(
        width: u32,
        height: u32,
        samples_per_pixel: u32,
        max_depth: u8,
        workers: u32,
    ) -> (settings: Result<RenderSettings, SettingsError>)
        ensures
            match settings {
                Ok(s) => fault(width, height, samples_per_pixel, workers) is None && s.holds(
                    width,
                    height,
                    samples_per_pixel,
                    max_depth,
                    workers,
                ),
                Err(e) => fault(width, height, samples_per_pixel, workers) == Some(e),
            },
    {
        if width == 0 {
            Err(SettingsError::NoWidth)
        } else if width > MAX_SIDE {
            Err(SettingsError::TooWide)
        } else if height == 0 {
            Err(SettingsError::NoHeight)
        } else if height > MAX_SIDE {
            Err(SettingsError::TooHigh)
        } else if samples_per_pixel == 0 {
            Err(SettingsError::NoSamples)
        } else if workers == 0 {
            Err(SettingsError::NoWorkers)
        } else {
            Ok(RenderSettings { width, height, samples_per_pixel, max_depth, workers })
        }
    }

    /// Validates the settings of a render whose worker pool is as large as the
    /// number of physical cores that this machine reports. Whatever the
    /// machine reports, the result is that of `new` for some number of
    /// workers, and a fault in the other settings is found as `new` finds it.
    pub fn for_machine(width: u32, height: u32, samples_per_pixel: u32, max_depth: u8) -> (settings:
        Result<RenderSettings, SettingsError>)
        ensures
            fault(width, height, samples_per_pixel, 1) is Some ==> settings == Err::<
                RenderSettings,
                SettingsError,
            >(fault(width, height, samples_per_pixel, 1).unwrap()),
            match settings {
                Ok(s) => exists|workers: u32|
                    workers > 0 && #[trigger] s.holds(
                        width,
                        height,
                        samples_per_pixel,
                        max_depth,
                        workers,
                    ),
                Err(e) => e == SettingsError::NoWorkers || fault(
                    width,
                    height,
                    samples_per_pixel,
                    1,
                ) == Some(e),
            },
    {
        let workers = workers_for(physical_cores());
        RenderSettings::new(width, height, samples_per_pixel, max_depth, workers)
    }

    /// The number of columns of the image.
    pub fn width(&self) -> (width: u32)
        ensures
            width == self.spec_width(),
            0 < width <= MAX_SIDE,
    {
        proof {
            use_type_invariant(self);
        }
        self.width
    }

    /// The number of rows of the image.
    pub fn height(&self) -> (height: u32)
        ensures
            height == self.spec_height(),
            0 < height <= MAX_SIDE,
    {
        proof {
            use_type_invariant(self);
        }
        self.height
    }

    /// The number of samples that are averaged into one pixel.
    pub fn samples_per_pixel(&self) -> (samples: u32)
        ensures
            samples == self.spec_samples_per_pixel(),
            samples > 0,
    {
        proof {
            use_type_invariant(self);
        }
        self.samples_per_pixel
    }

    /// The number of bounces that a path may take.
    pub fn max_depth(&self) -> (depth: u8)
        ensures
            depth == self.spec_max_depth(),
    {
        self.max_depth
    }

    /// The number of workers that share the rows.
    pub fn workers(&self) -> (workers: u32)
        ensures
            workers == self.spec_workers(),
            workers > 0,
    {
        proof {
            use_type_invariant(self);
        }
        self.workers
    }

    /// A black canvas of the size of the image.
    pub fn canvas(&self) -> (canvas: Canvas)
        ensures
            canvas.spec_width() == self.spec_width(),
            canvas.spec_height() == self.spec_height(),
            canvas@ == Seq::new(
                (self.spec_width() * self.spec_height()) as nat,
                |i: int| (0u8, 0u8, 0u8),
            ),
    {
        proof {
            use_type_invariant(self);
        }
        Canvas::new(self.width, self.height)
    }

    /// The rows that `worker` renders, top row first; none for a number that
    /// is no worker's.
    pub fn rows(&self, worker: u32) -> (rows: Vec<u32>)
        ensures
            rows@ == stripe(self.spec_height(), self.spec_workers(), worker),
    {
        proof {
            use_type_invariant(self);
        }
        worker_rows(self.height, self.workers, worker)
    }

    /// A fresh path with the full budget of bounces.
    pub fn path(&self) -> (path: Path)
        ensures
            path@ == self.spec_max_depth(),
    {
        Path::new(self.max_depth)
    }

    /// The progress of the render as it starts: every worker at work.
    pub fn progress(&self) -> (progress: Progress)
        ensures
            progress@ == Seq::new(self.spec_workers() as nat, |i: int| true),
            progress.spec_running(),
    {
        Progress::new(self.workers as usize)
    }
}

} // verus!
