use vstd::prelude::*;

verus! {

/// Settings of an application run: the matrix size, the task timeout and the
/// timeout check frequency (both in milliseconds), and whether the monitor
/// prints what it receives.
#[derive(Debug, Clone, Copy, PartialEq, Eq, Structural)]
pub struct AppConfig {
    pub matrix_size: usize,
    pub timeout: u64,
    pub check_frequency: u64,
    pub monitor_display: bool,
}

impl Default for AppConfig {
    fn default() -> (config: Self)
        ensures
            config == (AppConfig { matrix_size: 0, timeout: 0, check_frequency: 0, monitor_display: false }),
    {
        AppConfig { matrix_size: 0, timeout: 0, check_frequency: 0, monitor_display: false }
    }
}

impl AppConfig {
    /// A configuration with every setting zero or off.
    pub fn new() -> (config: Self)
        ensures
            config == (AppConfig { matrix_size: 0, timeout: 0, check_frequency: 0, monitor_display: false }),
    {
        Self::default()
    }

    /// Replaces every setting.
    pub fn set_config(&mut self, matrix_size: usize, timeout: u64, check_frequency: u64, monitor_display: bool)
        ensures
            *final(self) == (AppConfig { matrix_size, timeout, check_frequency, monitor_display }),
    {
        self.matrix_size = matrix_size;
        self.timeout = timeout;
        self.check_frequency = check_frequency;
        self.monitor_display = monitor_display;
    }
}

} // verus!
