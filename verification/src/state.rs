//! The application's state and how each user action or tool result
//! changes it, with the commands the actions run.
use vstd::prelude::*;
use crate::devices::DeviceScan;
use crate::paths::{truncate_path, Platform};
use crate::text;

verus! {

broadcast use vstd::string::group_string_axioms;

// ───────────────────────── configuration ─────────────────────────

/// The user's tool paths; an empty path means "use the default".
#[derive(Clone, Debug)]
pub struct AppConfig {
    pub adb_path: String,
    pub scrcpy_path: String,
    pub android_sdk_path: String,
}

/// `configured` if set, else `default`.
pub open spec fn or_default(configured: Seq<char>, default: Seq<char>) -> Seq<char> {
    if configured.len() == 0 {
        default
    } else {
        configured
    }
}

fn pick(configured: &String, default: String) -> (r: String)
    ensures
        r@ == or_default(configured@, default@),
{
    if configured.as_str().is_empty() {
        default
    } else {
        configured.clone()
    }
}

impl AppConfig {
    /// A configuration with the given paths.
    pub fn new(adb_path: String, scrcpy_path: String, android_sdk_path: String) -> (r: AppConfig)
        ensures
            r.adb_path == adb_path,
            r.scrcpy_path == scrcpy_path,
            r.android_sdk_path == android_sdk_path,
    {
        AppConfig { adb_path, scrcpy_path, android_sdk_path }
    }

    /// The same paths, in a new value.
    pub fn duplicate(&self) -> (r: AppConfig)
        ensures
            r == *self,
    {
        AppConfig {
            adb_path: self.adb_path.clone(),
            scrcpy_path: self.scrcpy_path.clone(),
            android_sdk_path: self.android_sdk_path.clone(),
        }
    }

    /// The configuration file, `.phonemirror-config.json` in the home
    /// directory (`HOME`, else `USERPROFILE`, else `/`).
    pub fn config_file(home: Option<String>, user_profile: Option<String>) -> (r: String)
        ensures
            r@ == (match home {
                Some(h) => h@,
                None => match user_profile {
                    Some(u) => u@,
                    None => "/"@,
                },
            }) + "/.phonemirror-config.json"@,
    {
        let dir = crate::paths::home_dir(home, user_profile);
        text::concat(dir.as_str(), "/.phonemirror-config.json")
    }

    /// The configuration to start with: the one read from the file when it
    /// parsed, else `defaults`, which must then be written back (`true`).
    pub fn from_loaded(parsed: Option<AppConfig>, defaults: AppConfig) -> (r: (AppConfig, bool))
        ensures
            match parsed {
                Some(c) => r == (c, false),
                None => r == (defaults, true),
            },
    {
        match parsed {
            Some(c) => (c, false),
            None => (defaults, true),
        }
    }

    /// The adb to run: the configured one, else `default_adb`.
    pub fn adb_program(&self, default_adb: String) -> (r: String)
        ensures
            r@ == or_default(self.adb_path@, default_adb@),
    {
        pick(&self.adb_path, default_adb)
    }

    /// The scrcpy to run: the configured one, else `default_scrcpy`.
    pub fn scrcpy_program(&self, default_scrcpy: String) -> (r: String)
        ensures
            r@ == or_default(self.scrcpy_path@, default_scrcpy@),
    {
        pick(&self.scrcpy_path, default_scrcpy)
    }

    /// The configured Android SDK, if any.
    pub fn sdk(&self) -> (r: Option<&str>)
        ensures
            self.android_sdk_path@.len() == 0 ==> r is None,
            self.android_sdk_path@.len() > 0 ==> (r matches Some(s) && s@ == self.android_sdk_path@),
    {
        if self.android_sdk_path.as_str().is_empty() {
            None
        } else {
            Some(self.android_sdk_path.as_str())
        }
    }
}

// ───────────────────────── commands ─────────────────────────

/// A tool run: the program and its arguments.
pub struct ToolCommand {
    pub program: String,
    pub args: Vec<String>,
}

impl ToolCommand {
    /// The program's characters.
    pub open spec fn program_view(&self) -> Seq<char> {
        self.program@
    }

    /// The arguments' characters.
    pub open spec fn args_view(&self) -> Seq<Seq<char>> {
        text::strings_view(self.args@)
    }
}

/// Appends a copy of `s`.
fn push_str(v: &mut Vec<String>, s: &str)
    ensures
        text::strings_view(final(v)@) == text::strings_view(old(v)@).push(s@),
{
    v.push(String::from_str(s));
    assert(text::strings_view(v@) =~= text::strings_view(old(v)@).push(s@));
}

/// `-s <serial>` when a serial is known, else nothing.
pub open spec fn serial_args(serial: Seq<char>) -> Seq<Seq<char>> {
    if serial.len() > 0 {
        seq!["-s"@, serial]
    } else {
        Seq::<Seq<char>>::empty()
    }
}

fn serial_arg_list(serial: &String) -> (r: Vec<String>)
    ensures
        text::strings_view(r@) == serial_args(serial@),
{
    let mut r: Vec<String> = Vec::new();
    if !serial.as_str().is_empty() {
        push_str(&mut r, "-s");
        push_str(&mut r, serial.as_str());
    }
    assert(text::strings_view(r@) =~= serial_args(serial@));
    r
}

/// The command that stops every scrcpy.
pub open spec fn close_mirror_command_spec(platform: Platform) -> (Seq<char>, Seq<Seq<char>>) {
    if platform == Platform::Windows {
        ("taskkill"@, seq!["/F"@, "/IM"@, "scrcpy.exe"@])
    } else {
        ("pkill"@, seq!["-x"@, "scrcpy"@])
    }
}

/// The command that stops recording scrcpy instances.
pub open spec fn stop_recording_command_spec(platform: Platform) -> (Seq<char>, Seq<Seq<char>>) {
    if platform == Platform::Windows {
        ("taskkill"@, seq!["/F"@, "/IM"@, "scrcpy.exe"@])
    } else {
        ("pkill"@, seq!["-f"@, "scrcpy.*--record"@])
    }
}

/// Closing the mirror uses Windows' `taskkill` on Windows only; on every
/// other platform it is `pkill -x scrcpy`, which ends exactly the processes
/// that `pgrep -x scrcpy` reports.
pub proof fn lemma_close_mirror_command(platform: Platform)
    ensures
        platform == Platform::Windows ==> close_mirror_command_spec(platform) == (
            "taskkill"@,
            seq!["/F"@, "/IM"@, "scrcpy.exe"@],
        ),
        platform != Platform::Windows ==> close_mirror_command_spec(platform) == (
            "pkill"@,
            seq!["-x"@, "scrcpy"@],
        ),
        (close_mirror_command_spec(platform).0 == "taskkill"@) == (platform == Platform::Windows),
{
    reveal_strlit("taskkill");
    reveal_strlit("pkill");
    assert("taskkill"@[0] != "pkill"@[0]);
}

/// Stopping a recording uses Windows' `taskkill` on Windows only; on every
/// other platform it is `pkill -f scrcpy.*--record`, which matches only
/// scrcpy runs started with `--record`.
pub proof fn lemma_stop_recording_command(platform: Platform)
    ensures
        platform == Platform::Windows ==> stop_recording_command_spec(platform) == (
            "taskkill"@,
            seq!["/F"@, "/IM"@, "scrcpy.exe"@],
        ),
        platform != Platform::Windows ==> stop_recording_command_spec(platform) == (
            "pkill"@,
            seq!["-f"@, "scrcpy.*--record"@],
        ),
        (stop_recording_command_spec(platform).0 == "taskkill"@) == (platform == Platform::Windows),
        stop_recording_command_spec(platform).0 == close_mirror_command_spec(platform).0,
{
    reveal_strlit("taskkill");
    reveal_strlit("pkill");
    assert("taskkill"@[0] != "pkill"@[0]);
}

/// The command that stops every scrcpy.
pub fn close_mirror_command(platform: Platform) -> (r: ToolCommand)
    ensures
        (r.program_view(), r.args_view()) == close_mirror_command_spec(platform),
        platform != Platform::Windows ==> r.program@ == "pkill"@ && r.args_view() == seq![
            "-x"@,
            "scrcpy"@,
        ],
        platform == Platform::Windows ==> r.program@ == "taskkill"@ && r.args_view() == seq![
            "/F"@,
            "/IM"@,
            "scrcpy.exe"@,
        ],
{
    let mut args: Vec<String> = Vec::new();
    if platform == Platform::Windows {
        push_str(&mut args, "/F");
        push_str(&mut args, "/IM");
        push_str(&mut args, "scrcpy.exe");
        assert(text::strings_view(args@) =~= seq!["/F"@, "/IM"@, "scrcpy.exe"@]);
        ToolCommand { program: String::from_str("taskkill"), args }
    } else {
        push_str(&mut args, "-x");
        push_str(&mut args, "scrcpy");
        assert(text::strings_view(args@) =~= seq!["-x"@, "scrcpy"@]);
        ToolCommand { program: String::from_str("pkill"), args }
    }
}

/// The command that stops recording scrcpy instances.
pub fn stop_recording_command(platform: Platform) -> (r: ToolCommand)
    ensures
        (r.program_view(), r.args_view()) == stop_recording_command_spec(platform),
        platform != Platform::Windows ==> r.program@ == "pkill"@ && r.args_view() == seq![
            "-f"@,
            "scrcpy.*--record"@,
        ],
        platform == Platform::Windows ==> r.program@ == "taskkill"@ && r.args_view() == seq![
            "/F"@,
            "/IM"@,
            "scrcpy.exe"@,
        ],
{
    let mut args: Vec<String> = Vec::new();
    if platform == Platform::Windows {
        push_str(&mut args, "/F");
        push_str(&mut args, "/IM");
        push_str(&mut args, "scrcpy.exe");
        assert(text::strings_view(args@) =~= seq!["/F"@, "/IM"@, "scrcpy.exe"@]);
        ToolCommand { program: String::from_str("taskkill"), args }
    } else {
        push_str(&mut args, "-f");
        push_str(&mut args, "scrcpy.*--record");
        assert(text::strings_view(args@) =~= seq!["-f"@, "scrcpy.*--record"@]);
        ToolCommand { program: String::from_str("pkill"), args }
    }
}

/// Where a screenshot is stored on the phone before it is pulled.
pub open spec fn remote_screenshot() -> Seq<char> {
    "/sdcard/phone_screenshot.png"@
}

/// The three adb runs of a screenshot.
pub struct ScreenshotCommands {
    /// `screencap` into `remote_screenshot()`.
    pub capture: ToolCommand,
    /// `pull` of it into the local file.
    pub pull: ToolCommand,
    /// `rm` of it on the phone.
    pub remove: ToolCommand,
}

// ───────────────────────── outcomes and reactions ─────────────────────────

/// What became of a scrcpy launched in the background, half a second later.
pub enum LaunchOutcome {
    /// It had already exited, with this exit code if any.
    Exited(Option<i32>),
    /// It still runs (or could not be asked).
    Running,
    /// It could not be started; the error's text.
    SpawnFailed(String),
}

/// A request to the window system.
#[derive(Clone, Copy, PartialEq, Eq, Structural, Debug)]
pub enum WindowCommand {
    /// Make the window visible.
    Show,
    /// Hide the window (the tray keeps running).
    Hide,
    /// Minimize the window.
    Minimize,
    /// Un-minimize the window.
    Restore,
    /// Give the window focus.
    Focus,
    /// Close the window, ending the program.
    Close,
    /// Cancel a close the user asked for.
    CancelClose,
}

/// An action the program must then carry out with the tools.
#[derive(Clone, Copy, PartialEq, Eq, Structural, Debug)]
pub enum AppTask {
    Nothing,
    TakeScreenshot,
    StartRecording,
    CloseMirror,
}

/// What the program does in answer to an event: window requests and a task,
/// carried out in the order that `task_first` gives.
pub struct Reaction {
    pub commands: Vec<WindowCommand>,
    pub task: AppTask,
    /// The task runs before the window requests are sent; otherwise after.
    pub task_first: bool,
}

/// The tray menu's entries.
pub enum MenuChoice {
    ShowWindow,
    Screenshot,
    Record,
    Quit,
    Unknown,
}

/// The buttons of the dialog shown when quitting while scrcpy runs.
#[derive(Clone, Copy, PartialEq, Eq, Structural, Debug)]
pub enum CloseDialogChoice {
    CloseMirrorAndQuit,
    KeepRunning,
    Cancel,
}

fn reaction(commands: Vec<WindowCommand>, task: AppTask, task_first: bool) -> (r: Reaction)
    ensures
        r.commands == commands,
        r.task == task,
        r.task_first == task_first,
{
    Reaction { commands, task, task_first }
}

// ───────────────────────── state ─────────────────────────

/// What is known about the phone and the tools.
#[derive(Clone, Debug)]
pub struct DeviceStatus {
    pub connected: bool,
    pub device_id: String,
    /// The serial to pass to scrcpy and adb with `-s` (USB preferred over
    /// TCP/IP).
    pub device_serial: String,
    pub adb_path: String,
    pub scrcpy_path: String,
    /// A device check has run.
    pub checked: bool,
}

/// The application's state.
pub struct AppState {
    pub device_status: DeviceStatus,
    pub mirror_running: bool,
    pub is_recording: bool,
    pub status_message: String,
    pub status_is_error: bool,
    pub show_close_warning: bool,
    pub show_settings: bool,
    pub config: AppConfig,
    pub config_edit: AppConfig,
    pub config_error: String,
}

/// The status line's text: a mark (`✗` for errors, `✓` otherwise), a space
/// and the message, cut after its first 47 bytes (with `…`) when it is
/// longer than 50 bytes.
pub open spec fn status_line_spec(message: Seq<char>, is_error: bool) -> Seq<char> {
    let mark = if is_error {
        '\u{2717}'
    } else {
        '\u{2713}'
    };
    if text::byte_len(message) > 50 {
        seq![mark, ' '] + message.take(text::chars_in_bytes(message, 47) as int) + seq!['\u{2026}']
    } else {
        seq![mark, ' '] + message
    }
}

/// The text of an exit: the code, or -1 when none is known.
pub open spec fn exit_code_text(code: Option<i32>) -> Seq<char> {
    match code {
        Some(c) => text::decimal(c as int),
        None => text::decimal(-1),
    }
}

impl AppState {
    /// The state at start-up with configuration `cfg`: nothing checked or
    /// running, no message, no dialog.
    pub fn new(cfg: AppConfig) -> (r: AppState)
        ensures
            !r.device_status.connected,
            r.device_status.device_id@.len() == 0,
            r.device_status.device_serial@.len() == 0,
            r.device_status.adb_path == cfg.adb_path,
            r.device_status.scrcpy_path == cfg.scrcpy_path,
            !r.device_status.checked,
            !r.mirror_running,
            !r.is_recording,
            r.status_message@.len() == 0,
            !r.status_is_error,
            !r.show_close_warning,
            !r.show_settings,
            r.config == cfg,
            r.config_edit == cfg,
            r.config_error@.len() == 0,
    {
        let device_status = DeviceStatus {
            connected: false,
            device_id: String::new(),
            device_serial: String::new(),
            adb_path: cfg.adb_path.clone(),
            scrcpy_path: cfg.scrcpy_path.clone(),
            checked: false,
        };
        let config_edit = cfg.duplicate();
        AppState {
            device_status,
            mirror_running: false,
            is_recording: false,
            status_message: String::new(),
            status_is_error: false,
            show_close_warning: false,
            show_settings: false,
            config: cfg,
            config_edit,
            config_error: String::new(),
        }
    }

    // ── device check ──

    /// The device listing to run: `<adb> devices`.
    pub fn devices_command(&self, default_adb: String) -> (r: ToolCommand)
        ensures
            r.program_view() == or_default(self.config.adb_path@, default_adb@),
            r.args_view() == seq!["devices"@],
    {
        let program = self.config.adb_program(default_adb);
        let mut args: Vec<String> = Vec::new();
        push_str(&mut args, "devices");
        assert(text::strings_view(args@) =~= seq!["devices"@]);
        ToolCommand { program, args }
    }

    /// Takes in a device check: what adb listed, the tools in use, and
    /// whether scrcpy runs.
    pub fn apply_refresh(
        &mut self,
        scan: DeviceScan,
        default_adb: String,
        default_scrcpy: String,
        mirror_running: bool,
    )
        ensures
            final(self).device_status.connected == scan.connected,
            final(self).device_status.device_id == scan.device_id,
            final(self).device_status.device_serial == scan.device_serial,
            final(self).device_status.adb_path@ == or_default(
                old(self).config.adb_path@,
                default_adb@,
            ),
            final(self).device_status.scrcpy_path@ == or_default(
                old(self).config.scrcpy_path@,
                default_scrcpy@,
            ),
            final(self).device_status.checked,
            final(self).mirror_running == mirror_running,
            final(self).is_recording == old(self).is_recording,
            final(self).status_message == old(self).status_message,
            final(self).status_is_error == old(self).status_is_error,
            final(self).show_close_warning == old(self).show_close_warning,
            final(self).show_settings == old(self).show_settings,
            final(self).config == old(self).config,
            final(self).config_edit == old(self).config_edit,
            final(self).config_error == old(self).config_error,
    {
        let adb = self.config.adb_program(default_adb);
        let scrcpy = self.config.scrcpy_program(default_scrcpy);
        self.device_status = DeviceStatus {
            connected: scan.connected,
            device_id: scan.device_id,
            device_serial: scan.device_serial,
            adb_path: adb,
            scrcpy_path: scrcpy,
            checked: true,
        };
        self.mirror_running = mirror_running;
    }

    // ── mirror ──

    /// The scrcpy run that mirrors the phone: the device's serial when one
    /// is known, and on macOS the left Ctrl key as shortcut modifier.
    pub fn mirror_command(&self, default_scrcpy: String, platform: Platform) -> (r: ToolCommand)
        ensures
            r.program_view() == or_default(self.config.scrcpy_path@, default_scrcpy@),
            r.args_view() == serial_args(self.device_status.device_serial@) + (if platform
                == Platform::MacOs {
                seq!["--shortcut-mod=lctrl"@]
            } else {
                Seq::<Seq<char>>::empty()
            }),
    {
        let program = self.config.scrcpy_program(default_scrcpy);
        let mut args = serial_arg_list(&self.device_status.device_serial);
        let ghost before = text::strings_view(args@);
        if platform == Platform::MacOs {
            push_str(&mut args, "--shortcut-mod=lctrl");
        }
        assert(text::strings_view(args@) =~= before + (if platform == Platform::MacOs {
            seq!["--shortcut-mod=lctrl"@]
        } else {
            Seq::<Seq<char>>::empty()
        }));
        ToolCommand { program, args }
    }

    /// Takes in how the mirror's launch went.
    pub fn finish_mirror_start(&mut self, outcome: LaunchOutcome)
        ensures
            match outcome {
                LaunchOutcome::Exited(code) => {
                    &&& !final(self).mirror_running
                    &&& final(self).status_message@ == "Mirror failed (exited "@ + exit_code_text(
                        code,
                    ) + ")"@
                    &&& final(self).status_is_error
                },
                LaunchOutcome::Running => {
                    &&& final(self).mirror_running
                    &&& final(self).status_message@ == "Mirror started"@
                    &&& !final(self).status_is_error
                },
                LaunchOutcome::SpawnFailed(e) => {
                    &&& final(self).mirror_running == old(self).mirror_running
                    &&& final(self).status_message@ == "Failed: "@ + e@
                    &&& final(self).status_is_error
                },
            },
            final(self).is_recording == old(self).is_recording,
            final(self).device_status == old(self).device_status,
            final(self).show_close_warning == old(self).show_close_warning,
            final(self).show_settings == old(self).show_settings,
            final(self).config == old(self).config,
            final(self).config_edit == old(self).config_edit,
            final(self).config_error == old(self).config_error,
    {
        match outcome {
            LaunchOutcome::Exited(code) => {
                self.mirror_running = false;
                self.status_message = exit_message("Mirror failed (exited ", code);
                self.status_is_error = true;
            },
            LaunchOutcome::Running => {
                self.mirror_running = true;
                self.status_message = String::from_str("Mirror started");
                self.status_is_error = false;
            },
            LaunchOutcome::SpawnFailed(e) => {
                self.status_message = text::concat("Failed: ", e.as_str());
                self.status_is_error = true;
            },
        }
    }

    /// After every scrcpy was told to stop: nothing mirrors or records.
    pub fn after_close_mirror(&mut self)
        ensures
            !final(self).mirror_running,
            !final(self).is_recording,
            final(self).status_message@ == "Mirror closed"@,
            !final(self).status_is_error,
            final(self).device_status == old(self).device_status,
            final(self).show_close_warning == old(self).show_close_warning,
            final(self).show_settings == old(self).show_settings,
            final(self).config == old(self).config,
            final(self).config_edit == old(self).config_edit,
            final(self).config_error == old(self).config_error,
    {
        self.mirror_running = false;
        self.is_recording = false;
        self.status_message = String::from_str("Mirror closed");
        self.status_is_error = false;
    }

    // ── screenshot ──

    /// The adb runs of a screenshot saved to `file`: capture on the phone,
    /// pull, remove on the phone; each with the device's serial when known.
    pub fn screenshot_commands(&self, default_adb: String, file: &str) -> (r: ScreenshotCommands)
        ensures
            r.capture.program_view() == or_default(self.config.adb_path@, default_adb@),
            r.pull.program_view() == r.capture.program_view(),
            r.remove.program_view() == r.capture.program_view(),
            r.capture.args_view() == serial_args(self.device_status.device_serial@) + seq![
                "shell"@,
                "screencap"@,
                "-p"@,
                remote_screenshot(),
            ],
            r.pull.args_view() == serial_args(self.device_status.device_serial@) + seq![
                "pull"@,
                remote_screenshot(),
                file@,
            ],
            r.remove.args_view() == serial_args(self.device_status.device_serial@) + seq![
                "shell"@,
                "rm"@,
                remote_screenshot(),
            ],
    {
        let adb = self.config.adb_program(default_adb);
        let serial = &self.device_status.device_serial;
        let mut capture = serial_arg_list(serial);
        let ghost s = serial_args(serial@);
        push_str(&mut capture, "shell");
        push_str(&mut capture, "screencap");
        push_str(&mut capture, "-p");
        push_str(&mut capture, "/sdcard/phone_screenshot.png");
        assert(text::strings_view(capture@) =~= s + seq![
            "shell"@,
            "screencap"@,
            "-p"@,
            remote_screenshot(),
        ]);
        let mut pull = serial_arg_list(serial);
        push_str(&mut pull, "pull");
        push_str(&mut pull, "/sdcard/phone_screenshot.png");
        push_str(&mut pull, file);
        assert(text::strings_view(pull@) =~= s + seq!["pull"@, remote_screenshot(), file@]);
        let mut remove = serial_arg_list(serial);
        push_str(&mut remove, "shell");
        push_str(&mut remove, "rm");
        push_str(&mut remove, "/sdcard/phone_screenshot.png");
        assert(text::strings_view(remove@) =~= s + seq!["shell"@, "rm"@, remote_screenshot()]);
        ScreenshotCommands {
            capture: ToolCommand { program: adb.clone(), args: capture },
            pull: ToolCommand { program: adb.clone(), args: pull },
            remove: ToolCommand { program: adb, args: remove },
        }
    }

    /// Takes in whether the pull of the screenshot succeeded.
    pub fn finish_screenshot(&mut self, pulled: bool)
        ensures
            pulled ==> final(self).status_message@ == "Screenshot saved!"@
                && !final(self).status_is_error,
            !pulled ==> final(self).status_message@ == "Screenshot failed \u{2014} phone connected?"@
                && final(self).status_is_error,
            final(self).mirror_running == old(self).mirror_running,
            final(self).is_recording == old(self).is_recording,
            final(self).device_status == old(self).device_status,
            final(self).show_close_warning == old(self).show_close_warning,
            final(self).show_settings == old(self).show_settings,
            final(self).config == old(self).config,
            final(self).config_edit == old(self).config_edit,
            final(self).config_error == old(self).config_error,
    {
        if pulled {
            self.status_message = String::from_str("Screenshot saved!");
            self.status_is_error = false;
        } else {
            self.status_message = String::from_str("Screenshot failed \u{2014} phone connected?");
            self.status_is_error = true;
        }
    }

    // ── recording ──

    /// The scrcpy run that records the phone's screen into `file`, without
    /// a window, audio or playback.
    pub fn recording_command(&self, default_scrcpy: String, file: &str) -> (r: ToolCommand)
        ensures
            r.program_view() == or_default(self.config.scrcpy_path@, default_scrcpy@),
            r.args_view() == serial_args(self.device_status.device_serial@) + seq![
                "--record"@,
                file@,
                "--no-playback"@,
                "--no-audio"@,
                "--no-window"@,
            ],
    {
        let program = self.config.scrcpy_program(default_scrcpy);
        let mut args = serial_arg_list(&self.device_status.device_serial);
        let ghost s = text::strings_view(args@);
        push_str(&mut args, "--record");
        push_str(&mut args, file);
        push_str(&mut args, "--no-playback");
        push_str(&mut args, "--no-audio");
        push_str(&mut args, "--no-window");
        assert(text::strings_view(args@) =~= s + seq![
            "--record"@,
            file@,
            "--no-playback"@,
            "--no-audio"@,
            "--no-window"@,
        ]);
        ToolCommand { program, args }
    }

    /// Takes in how the recorder's launch into `file` went.
    pub fn finish_recording_start(&mut self, outcome: LaunchOutcome, file: &str)
        ensures
            match outcome {
                LaunchOutcome::Exited(code) => {
                    &&& !final(self).is_recording
                    &&& final(self).status_message@ == "Recording failed (exited "@
                        + exit_code_text(code) + ")"@
                    &&& final(self).status_is_error
                },
                LaunchOutcome::Running => {
                    &&& final(self).is_recording
                    &&& final(self).status_message@ == "Recording started \u{2192} "@ + file@
                    &&& !final(self).status_is_error
                },
                LaunchOutcome::SpawnFailed(e) => {
                    &&& final(self).is_recording == old(self).is_recording
                    &&& final(self).status_message@ == "Failed: "@ + e@
                    &&& final(self).status_is_error
                },
            },
            final(self).mirror_running == old(self).mirror_running,
            final(self).device_status == old(self).device_status,
            final(self).show_close_warning == old(self).show_close_warning,
            final(self).show_settings == old(self).show_settings,
            final(self).config == old(self).config,
            final(self).config_edit == old(self).config_edit,
            final(self).config_error == old(self).config_error,
    {
        match outcome {
            LaunchOutcome::Exited(code) => {
                self.is_recording = false;
                self.status_message = exit_message("Recording failed (exited ", code);
                self.status_is_error = true;
            },
            LaunchOutcome::Running => {
                self.is_recording = true;
                self.status_message = text::concat("Recording started \u{2192} ", file);
                self.status_is_error = false;
            },
            LaunchOutcome::SpawnFailed(e) => {
                self.status_message = text::concat("Failed: ", e.as_str());
                self.status_is_error = true;
            },
        }
    }

    /// After the recorders were told to stop.
    pub fn after_stop_recording(&mut self)
        ensures
            !final(self).is_recording,
            final(self).status_message@ == "Recording stopped"@,
            !final(self).status_is_error,
            final(self).mirror_running == old(self).mirror_running,
            final(self).device_status == old(self).device_status,
            final(self).show_close_warning == old(self).show_close_warning,
            final(self).show_settings == old(self).show_settings,
            final(self).config == old(self).config,
            final(self).config_edit == old(self).config_edit,
            final(self).config_error == old(self).config_error,
    {
        self.is_recording = false;
        self.status_message = String::from_str("Recording stopped");
        self.status_is_error = false;
    }

    // ── settings ──

    /// Opens the settings dialog on a copy of the current configuration.
    pub fn open_settings(&mut self)
        ensures
            final(self).show_settings,
            final(self).config_edit == old(self).config,
            final(self).config_error@.len() == 0,
            final(self).config == old(self).config,
            final(self).device_status == old(self).device_status,
            final(self).mirror_running == old(self).mirror_running,
            final(self).is_recording == old(self).is_recording,
            final(self).status_message == old(self).status_message,
            final(self).status_is_error == old(self).status_is_error,
            final(self).show_close_warning == old(self).show_close_warning,
    {
        self.show_settings = true;
        self.config_edit = self.config.duplicate();
        self.config_error = String::new();
    }

    /// Closes the settings dialog without saving.
    pub fn cancel_settings(&mut self)
        ensures
            !final(self).show_settings,
            final(self).config_error@.len() == 0,
            final(self).config == old(self).config,
            final(self).config_edit == old(self).config_edit,
            final(self).device_status == old(self).device_status,
            final(self).mirror_running == old(self).mirror_running,
            final(self).is_recording == old(self).is_recording,
            final(self).status_message == old(self).status_message,
            final(self).status_is_error == old(self).status_is_error,
            final(self).show_close_warning == old(self).show_close_warning,
    {
        self.show_settings = false;
        self.config_error = String::new();
    }

    /// Puts the default paths into the settings being edited.
    pub fn reset_config_edit(&mut self, defaults: AppConfig)
        ensures
            final(self).config_edit == defaults,
            final(self).config == old(self).config,
            final(self).config_error == old(self).config_error,
            final(self).show_settings == old(self).show_settings,
            final(self).device_status == old(self).device_status,
            final(self).mirror_running == old(self).mirror_running,
            final(self).is_recording == old(self).is_recording,
            final(self).status_message == old(self).status_message,
            final(self).status_is_error == old(self).status_is_error,
            final(self).show_close_warning == old(self).show_close_warning,
    {
        self.config_edit = defaults;
    }

    /// Shows `e` in the settings dialog.
    pub fn record_config_error(&mut self, e: String)
        ensures
            final(self).config_error == e,
            final(self).config == old(self).config,
            final(self).config_edit == old(self).config_edit,
            final(self).show_settings == old(self).show_settings,
            final(self).device_status == old(self).device_status,
            final(self).mirror_running == old(self).mirror_running,
            final(self).is_recording == old(self).is_recording,
            final(self).status_message == old(self).status_message,
            final(self).status_is_error == old(self).status_is_error,
            final(self).show_close_warning == old(self).show_close_warning,
    {
        self.config_error = e;
    }

    /// Checks the edited paths: each that is set must exist (as the flags
    /// tell), adb first, then scrcpy, then the SDK.
    pub fn validate_config_edit(&self, adb_exists: bool, scrcpy_exists: bool, sdk_exists: bool) -> (r:
        Result<(), String>)
        ensures
            ({
                let e = self.config_edit;
                let adb_bad = e.adb_path@.len() > 0 && !adb_exists;
                let scrcpy_bad = e.scrcpy_path@.len() > 0 && !scrcpy_exists;
                let sdk_bad = e.android_sdk_path@.len() > 0 && !sdk_exists;
                &&& adb_bad ==> (r matches Err(m) && m@ == "ADB not found: "@ + e.adb_path@)
                &&& !adb_bad && scrcpy_bad ==> (r matches Err(m) && m@ == "scrcpy not found: "@
                    + e.scrcpy_path@)
                &&& !adb_bad && !scrcpy_bad && sdk_bad ==> (r matches Err(m) && m@
                    == "Android SDK not found: "@ + e.android_sdk_path@)
                &&& !adb_bad && !scrcpy_bad && !sdk_bad ==> r is Ok
            }),
    {
        let e = &self.config_edit;
        if !e.adb_path.as_str().is_empty() && !adb_exists {
            return Err(text::concat("ADB not found: ", e.adb_path.as_str()));
        }
        if !e.scrcpy_path.as_str().is_empty() && !scrcpy_exists {
            return Err(text::concat("scrcpy not found: ", e.scrcpy_path.as_str()));
        }
        if !e.android_sdk_path.as_str().is_empty() && !sdk_exists {
            return Err(text::concat("Android SDK not found: ", e.android_sdk_path.as_str()));
        }
        Ok(())
    }

    /// Makes the edited settings the configuration (before they are
    /// written).
    pub fn commit_config_edit(&mut self)
        ensures
            final(self).config == old(self).config_edit,
            final(self).config_edit == old(self).config_edit,
            final(self).config_error == old(self).config_error,
            final(self).show_settings == old(self).show_settings,
            final(self).device_status == old(self).device_status,
            final(self).mirror_running == old(self).mirror_running,
            final(self).is_recording == old(self).is_recording,
            final(self).status_message == old(self).status_message,
            final(self).status_is_error == old(self).status_is_error,
            final(self).show_close_warning == old(self).show_close_warning,
    {
        self.config = self.config_edit.duplicate();
    }

    /// Takes in whether writing the configuration worked. On failure the
    /// error is reported and nothing else changes; on success the tools in
    /// use follow the new configuration and the dialog closes.
    pub fn finish_config_save(
        &mut self,
        saved: Result<(), String>,
        default_adb: String,
        default_scrcpy: String,
    ) -> (r: Result<(), String>)
        ensures
            match saved {
                Err(e) => {
                    &&& r matches Err(m) && m@ == "Failed to save config: "@ + e@
                    &&& final(self).device_status == old(self).device_status
                    &&& final(self).status_message == old(self).status_message
                    &&& final(self).status_is_error == old(self).status_is_error
                    &&& final(self).show_settings == old(self).show_settings
                },
                Ok(()) => {
                    &&& r is Ok
                    &&& final(self).device_status.adb_path@ == or_default(
                        old(self).config.adb_path@,
                        default_adb@,
                    )
                    &&& final(self).device_status.scrcpy_path@ == or_default(
                        old(self).config.scrcpy_path@,
                        default_scrcpy@,
                    )
                    &&& final(self).device_status.connected == old(self).device_status.connected
                    &&& final(self).device_status.device_id == old(self).device_status.device_id
                    &&& final(self).device_status.device_serial
                        == old(self).device_status.device_serial
                    &&& final(self).device_status.checked == old(self).device_status.checked
                    &&& final(self).status_message@ == "Settings saved"@
                    &&& !final(self).status_is_error
                    &&& !final(self).show_settings
                },
            },
            final(self).config == old(self).config,
            final(self).config_edit == old(self).config_edit,
            final(self).config_error == old(self).config_error,
            final(self).mirror_running == old(self).mirror_running,
            final(self).is_recording == old(self).is_recording,
            final(self).show_close_warning == old(self).show_close_warning,
    {
        match saved {
            Err(e) => Err(text::concat("Failed to save config: ", e.as_str())),
            Ok(()) => {
                self.device_status.adb_path = self.config.adb_program(default_adb);
                self.device_status.scrcpy_path = self.config.scrcpy_program(default_scrcpy);
                self.status_message = String::from_str("Settings saved");
                self.status_is_error = false;
                self.show_settings = false;
                Ok(())
            },
        }
    }

    // ── window and tray events ──

    /// The user asked to close the window: it hides to the tray instead.
    pub fn on_close_requested(&mut self) -> (r: Vec<WindowCommand>)
        ensures
            r@ == seq![WindowCommand::CancelClose, WindowCommand::Hide],
            !final(self).show_close_warning,
            final(self).mirror_running == old(self).mirror_running,
            final(self).is_recording == old(self).is_recording,
            final(self).status_message == old(self).status_message,
            final(self).status_is_error == old(self).status_is_error,
            final(self).show_settings == old(self).show_settings,
            final(self).device_status == old(self).device_status,
            final(self).config == old(self).config,
            final(self).config_edit == old(self).config_edit,
            final(self).config_error == old(self).config_error,
    {
        self.show_close_warning = false;
        let mut r: Vec<WindowCommand> = Vec::new();
        r.push(WindowCommand::CancelClose);
        r.push(WindowCommand::Hide);
        assert(r@ =~= seq![WindowCommand::CancelClose, WindowCommand::Hide]);
        r
    }

    /// Answers a tray menu entry. Quitting while scrcpy mirrors or records
    /// asks first; otherwise it closes.
    pub fn on_menu_event(&mut self, choice: MenuChoice) -> (r: Reaction)
        ensures
            match choice {
                MenuChoice::ShowWindow => r.commands@ == seq![
                    WindowCommand::Show,
                    WindowCommand::Restore,
                    WindowCommand::Focus,
                ] && r.task == AppTask::Nothing,
                MenuChoice::Screenshot => r.commands@.len() == 0 && r.task == AppTask::TakeScreenshot,
                MenuChoice::Record => r.commands@ == seq![
                    WindowCommand::Show,
                    WindowCommand::Restore,
                ] && r.task == AppTask::StartRecording,
                MenuChoice::Quit => r.task == AppTask::Nothing && if old(self).mirror_running
                    || old(self).is_recording {
                    r.commands@.len() == 0 && final(self).show_close_warning
                } else {
                    r.commands@ == seq![WindowCommand::Close]
                        && final(self).show_close_warning == old(self).show_close_warning
                },
                MenuChoice::Unknown => r.commands@.len() == 0 && r.task == AppTask::Nothing,
            },
            !r.task_first,
            !(choice is Quit) ==> final(self).show_close_warning == old(self).show_close_warning,
            final(self).mirror_running == old(self).mirror_running,
            final(self).is_recording == old(self).is_recording,
            final(self).status_message == old(self).status_message,
            final(self).status_is_error == old(self).status_is_error,
            final(self).show_settings == old(self).show_settings,
            final(self).device_status == old(self).device_status,
            final(self).config == old(self).config,
            final(self).config_edit == old(self).config_edit,
            final(self).config_error == old(self).config_error,
    {
        let mut commands: Vec<WindowCommand> = Vec::new();
        match choice {
            MenuChoice::ShowWindow => {
                commands.push(WindowCommand::Show);
                commands.push(WindowCommand::Restore);
                commands.push(WindowCommand::Focus);
                assert(commands@ =~= seq![
                    WindowCommand::Show,
                    WindowCommand::Restore,
                    WindowCommand::Focus,
                ]);
                reaction(commands, AppTask::Nothing, false)
            },
            MenuChoice::Screenshot => reaction(commands, AppTask::TakeScreenshot, false),
            MenuChoice::Record => {
                commands.push(WindowCommand::Show);
                commands.push(WindowCommand::Restore);
                assert(commands@ =~= seq![WindowCommand::Show, WindowCommand::Restore]);
                reaction(commands, AppTask::StartRecording, false)
            },
            MenuChoice::Quit => {
                if self.mirror_running || self.is_recording {
                    self.show_close_warning = true;
                } else {
                    commands.push(WindowCommand::Close);
                    assert(commands@ =~= seq![WindowCommand::Close]);
                }
                reaction(commands, AppTask::Nothing, false)
            },
            MenuChoice::Unknown => reaction(commands, AppTask::Nothing, false),
        }
    }

    /// Answers the quit dialog. Every choice closes the dialog.
    pub fn on_close_dialog(&mut self, choice: CloseDialogChoice) -> (r: Reaction)
        ensures
            !final(self).show_close_warning,
            r.task_first == (choice == CloseDialogChoice::CloseMirrorAndQuit),
            choice == CloseDialogChoice::CloseMirrorAndQuit ==> r.commands@ == seq![
                WindowCommand::Close,
            ] && r.task == AppTask::CloseMirror,
            choice == CloseDialogChoice::KeepRunning ==> r.commands@ == seq![
                WindowCommand::Hide,
                WindowCommand::Minimize,
            ] && r.task == AppTask::Nothing,
            choice == CloseDialogChoice::Cancel ==> r.commands@.len() == 0 && r.task
                == AppTask::Nothing,
            final(self).mirror_running == old(self).mirror_running,
            final(self).is_recording == old(self).is_recording,
            final(self).status_message == old(self).status_message,
            final(self).status_is_error == old(self).status_is_error,
            final(self).show_settings == old(self).show_settings,
            final(self).device_status == old(self).device_status,
            final(self).config == old(self).config,
            final(self).config_edit == old(self).config_edit,
            final(self).config_error == old(self).config_error,
    {
        self.show_close_warning = false;
        let mut commands: Vec<WindowCommand> = Vec::new();
        match choice {
            CloseDialogChoice::CloseMirrorAndQuit => {
                commands.push(WindowCommand::Close);
                assert(commands@ =~= seq![WindowCommand::Close]);
                reaction(commands, AppTask::CloseMirror, true)
            },
            CloseDialogChoice::KeepRunning => {
                commands.push(WindowCommand::Hide);
                commands.push(WindowCommand::Minimize);
                assert(commands@ =~= seq![WindowCommand::Hide, WindowCommand::Minimize]);
                reaction(commands, AppTask::Nothing, false)
            },
            CloseDialogChoice::Cancel => reaction(commands, AppTask::Nothing, false),
        }
    }

    // ── display ──

    /// The status line shown under the cards, if there is a message. A
    /// message longer than 50 bytes is cut after 47, which must fall
    /// between characters.
    pub fn status_line(&self) -> (r: Option<String>)
        requires
            text::byte_len(self.status_message@) > 50 ==> text::is_boundary(
                self.status_message@,
                47,
            ),
        ensures
            self.status_message@.len() == 0 ==> r is None,
            self.status_message@.len() > 0 ==> (r matches Some(s) && s@ == status_line_spec(
                self.status_message@,
                self.status_is_error,
            )),
    {
        let chars = text::chars_of(self.status_message.as_str());
        if chars.len() == 0 {
            return None;
        }
        let mark = if self.status_is_error {
            "\u{2717} "
        } else {
            "\u{2713} "
        };
        proof {
            reveal_strlit("\u{2717} ");
            reveal_strlit("\u{2713} ");
            reveal_strlit("\u{2026}");
            text::lemma_byte_len_is_encoding_len(self.status_message@);
        }
        let bytes = self.status_message.as_str().as_bytes();
        if bytes.len() > 50 {
            let (c, _) = text::count_chars_in_bytes(&chars, 47);
            proof {
                text::lemma_chars_in_bytes_bound(chars@, 47);
            }
            let head = text::string_of_range(&chars, 0, c);
            assert(chars@.subrange(0, c as int) =~= chars@.take(c as int));
            let line = text::concat3(mark, head.as_str(), "\u{2026}");
            assert(line@ =~= status_line_spec(self.status_message@, self.status_is_error));
            Some(line)
        } else {
            let line = text::concat(mark, self.status_message.as_str());
            assert(line@ =~= status_line_spec(self.status_message@, self.status_is_error));
            Some(line)
        }
    }

    /// Whether `status_line` can cut the message without slicing through a
    /// character.
    pub fn status_line_ok(&self) -> (r: bool)
        ensures
            r == (text::byte_len(self.status_message@) > 50 ==> text::is_boundary(
                self.status_message@,
                47,
            )),
    {
        proof {
            text::lemma_byte_len_is_encoding_len(self.status_message@);
        }
        let bytes = self.status_message.as_str().as_bytes();
        if bytes.len() > 50 {
            let chars = text::chars_of(self.status_message.as_str());
            text::boundary_at(&chars, 47)
        } else {
            true
        }
    }

    /// What the device card shows.
    pub fn device_card(&self) -> (r: DeviceCard)
        requires
            self.device_status.checked ==> crate::paths::truncate_path_defined(
                self.device_status.adb_path@,
                35,
            ),
            self.device_status.checked ==> crate::paths::truncate_path_defined(
                self.device_status.scrcpy_path@,
                35,
            ),
        ensures
            r.checking == !self.device_status.checked,
            r.connected == self.device_status.connected,
            r.badge@ == (if self.device_status.connected {
                "Connected"@
            } else {
                "Disconnected"@
            }),
            r.detail@ == (if self.device_status.connected {
                self.device_status.device_id@
            } else {
                "No device found"@
            }),
            r.show_detail == (self.device_status.connected && self.device_status.device_id@.len()
                > 0),
            r.show_paths == self.device_status.checked,
            r.adb_shown@ == (if self.device_status.checked {
                crate::paths::truncated_path(self.device_status.adb_path@, 35)
            } else {
                Seq::<char>::empty()
            }),
            r.scrcpy_shown@ == (if self.device_status.checked {
                crate::paths::truncated_path(self.device_status.scrcpy_path@, 35)
            } else {
                Seq::<char>::empty()
            }),
    {
        let st = &self.device_status;
        let badge = if st.connected {
            String::from_str("Connected")
        } else {
            String::from_str("Disconnected")
        };
        let detail = if st.connected {
            st.device_id.clone()
        } else {
            String::from_str("No device found")
        };
        let (adb_shown, scrcpy_shown) = if st.checked {
            (truncate_path(st.adb_path.as_str(), 35), truncate_path(st.scrcpy_path.as_str(), 35))
        } else {
            (String::new(), String::new())
        };
        DeviceCard {
            checking: !st.checked,
            connected: st.connected,
            badge,
            detail,
            show_detail: st.connected && !st.device_id.as_str().is_empty(),
            show_paths: st.checked,
            adb_shown,
            scrcpy_shown,
        }
    }
}

/// `prefix`, the exit code (-1 when none) and `)`.
fn exit_message(prefix: &str, code: Option<i32>) -> (r: String)
    ensures
        r@ == prefix@ + exit_code_text(code) + ")"@,
{
    let n = match code {
        Some(c) => c,
        None => -1,
    };
    let digits = text::decimal_string(n);
    text::concat3(prefix, digits.as_str(), ")")
}

/// What the device card shows: a "checking" note until the first check;
/// then the connection badge, the device (when connected and known) and
/// the tool paths, shortened.
pub struct DeviceCard {
    pub checking: bool,
    pub connected: bool,
    pub badge: String,
    pub detail: String,
    pub show_detail: bool,
    pub show_paths: bool,
    pub adb_shown: String,
    pub scrcpy_shown: String,
}

/// The tray menu entry named by a menu item id.
pub fn menu_choice(id: &str) -> (r: MenuChoice)
    ensures
        id@ == "Show PhoneMirror"@ ==> r is ShowWindow,
        id@ == "Screenshot"@ ==> r is Screenshot,
        id@ == "Record"@ ==> r is Record,
        id@ == "Quit"@ ==> r is Quit,
        id@ != "Show PhoneMirror"@ && id@ != "Screenshot"@ && id@ != "Record"@ && id@ != "Quit"@
            ==> r is Unknown,
{
    proof {
        reveal_strlit("Show PhoneMirror");
        reveal_strlit("Screenshot");
        reveal_strlit("Record");
        reveal_strlit("Quit");
        assert("Show PhoneMirror"@.len() == 16 && "Screenshot"@.len() == 10 && "Record"@.len() == 6
            && "Quit"@.len() == 4);
        assert("Show PhoneMirror"@ != "Screenshot"@ && "Show PhoneMirror"@ != "Record"@
            && "Show PhoneMirror"@ != "Quit"@ && "Screenshot"@ != "Record"@ && "Screenshot"@
            != "Quit"@ && "Record"@ != "Quit"@);
    }
    if text::same_text(id, "Show PhoneMirror") {
        MenuChoice::ShowWindow
    } else if text::same_text(id, "Screenshot") {
        MenuChoice::Screenshot
    } else if text::same_text(id, "Record") {
        MenuChoice::Record
    } else if text::same_text(id, "Quit") {
        MenuChoice::Quit
    } else {
        MenuChoice::Unknown
    }
}

/// Whether a refresh is due: more than five seconds (in nanoseconds)
/// since the last one.
pub fn refresh_due(elapsed_nanos: u128) -> (r: bool)
    ensures
        r == (elapsed_nanos > 5_000_000_000),
{
    elapsed_nanos > 5_000_000_000
}

} // verus!
