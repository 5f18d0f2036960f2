//! The virtual keyboard key vocabulary that resolved actions emit.
//!
//! Variant order mirrors the Linux input key codes, so a variant's ordinal
//! is the code the output device reports; placeholder variants keep the
//! ordinals aligned across gaps in the code space.

use vstd::prelude::*;

verus! {

/// A virtual keyboard key (or button) that the emitter can inject.
#[derive(Copy, Clone, Eq, PartialEq, Hash, Debug, Structural)]
pub enum Key {
    Reserved,
    Esc,
    Num1,
    Num2,
    Num3,
    Num4,
    Num5,
    Num6,
    Num7,
    Num8,
    Num9,
    Num0,
    Minus,
    Equal,
    Backspace,
    Tab,
    Q,
    W,
    E,
    R,
    T,
    Y,
    U,
    I,
    O,
    P,
    LeftBrace,
    RightBrace,
    Enter,
    LeftCtrl,
    A,
    S,
    D,
    F,
    G,
    H,
    J,
    K,
    L,
    Semicolon,
    Apostrophe,
    Grave,
    LeftShift,
    Backslash,
    Z,
    X,
    C,
    V,
    B,
    N,
    M,
    Comma,
    Dot,
    Slash,
    RightShift,
    KpAsterisk,
    LeftAlt,
    Space,
    CapsLock,
    F1,
    F2,
    F3,
    F4,
    F5,
    F6,
    F7,
    F8,
    F9,
    F10,
    NumLock,
    ScrollLock,
    Kp7,
    Kp8,
    Kp9,
    KpMinus,
    Kp4,
    Kp5,
    Kp6,
    KpPlus,
    Kp1,
    Kp2,
    Kp3,
    Kp0,
    KpDot,
    Unknown54,
    ZenkakuHankaku,
    NonUsBackslashAndPipe,
    F11,
    F12,
    Ro,
    Katakana,
    Hiragana,
    Henkan,
    KatakanaHiragana,
    Muhenkan,
    KpJpComma,
    KpEnter,
    RightCtrl,
    KpSlash,
    Sysrq,
    RightAlt,
    LineFeed,
    Home,
    Up,
    PageUp,
    Left,
    Right,
    End,
    Down,
    PageDown,
    Insert,
    Delete,
    Macro,
    Mute,
    VolumeDown,
    VolumeUp,
    Power,
    KpEqual,
    KpPlusMinus,
    Pause,
    Scale,
    KpComma,
    Hangul,
    Hanja,
    Yen,
    LeftMeta,
    RightMeta,
    Compose,
    Stop,
    Again,
    Props,
    Undo,
    Front,
    CopyKey,
    Open,
    Paste,
    Find,
    Cut,
    Help,
    Menu,
    Calc,
    Setup,
    Sleep,
    Wakeup,
    File,
    SendFile,
    DeleteFile,
    Xfer,
    Prog1,
    Prog2,
    WWW,
    MSDOS,
    Coffee,
    RotateDisplay,
    CycleWindows,
    Mail,
    Bookmarks,
    Computer,
    Back,
    Forward,
    CloseCD,
    EjectCD,
    EjectCloseCD,
    NextSong,
    PlayPause,
    PreviousSong,
    StopCD,
    Record,
    Rewind,
    Phone,
    Iso,
    Config,
    Homepage,
    Refresh,
    Exit,
    Move,
    Edit,
    ScrollUp,
    ScrollDown,
    KpLeftParen,
    KpRightParen,
    New,
    Redo,
    F13,
    F14,
    F15,
    F16,
    F17,
    F18,
    F19,
    F20,
    F21,
    F22,
    F23,
    F24,
    UnknownC3,
    UnknownC4,
    UnknownC5,
    UnknownC6,
    UnknownC7,
    PlayCD,
    PauseCD,
    Prog3,
    Prog4,
    AllApplications,
    Suspend,
    Close,
    Play,
    FastForward,
    BassBoost,
    Print,
    Hp,
    Camera,
    Sound,
    Question,
    Email,
    Chat,
    Search,
    Connect,
    Finance,
    Sport,
    Shop,
    Alterase,
    Cancel,
    BrightnessDown,
    BrightnessUp,
    Media,
    SwitchVideoMode,
    IllumToggle,
    IllumDown,
    IllumUp,
    SendKey,
    Reply,
    ForwardMail,
    Save,
    Documents,
    Battery,
    Bluetooth,
    WLAN,
    UWB,
    Unknown,
    VideoNext,
    VideoPrev,
    BrightnessCycle,
    BrightnessAuto,
    DisplayOff,
    WWAN,
    Rfkill,
    MicMute,
    UnknownF9,
    UnknownFA,
    UnknownFB,
    UnknownFC,
    UnknownFD,
    UnknownFE,
    ReservedFF,
    Button0,
    Button1,
    Button2,
    Button3,
    Button4,
    Button5,
    Button6,
    Button7,
    Button8,
    Button9,
    Unknown10A,
    Unknown10B,
    Unknown10C,
    Unknown10D,
    Unknown10E,
    Unknown10F,
    ButtonLeft,
    ButtonRight,
    ButtonMiddle,
    ButtonSide,
    ButtonExtra,
    ButtonForward,
    ButtonBack,
    ButtonTask,
    Unknown118,
    Unknown119,
    Unknown11A,
    Unknown11B,
    Unknown11C,
    Unknown11D,
    Unknown11E,
    Unknown11F,
    ButtonTrigger,
    ButtonThumb,
    ButtonThumb2,
    ButtonTop,
    ButtonTop2,
    ButtonPinkie,
    ButtonBase,
    ButtonBase2,
    ButtonBase3,
    ButtonBase4,
    ButtonBase5,
    ButtonBase6,
    Unknown12C,
    Unknown12D,
    Unknown12E,
    ButtonDead,
    ButtonSouth,
    ButtonEast,
    ButtonC,
    ButtonNorth,
    ButtonWest,
    ButtonZ,
    ButtonTL,
    ButtonTR,
    ButtonTL2,
    ButtonTR2,
    ButtonSelect,
    ButtonStart,
    ButtonMode,
    ButtonThumbl,
    ButtonThumbr,
    Unknown13F,
    ButtonToolPen,
    ButtonToolRubber,
    ButtonToolBrush,
    ButtonToolPencil,
    ButtonToolAirbrush,
    ButtonToolFinger,
    ButtonToolMouse,
    ButtonToolLens,
    ButtonToolQuintTap,
    ButtonStylus3,
    ButtonTouch,
    ButtonStylus,
    ButtonStylus2,
    ButtonToolDoubleTap,
    ButtonToolTripleTap,
    ButtonToolQuadtap,
    ButtonWheel,
    ButtonGearUp,
    Unknown152,
    Unknown153,
    Unknown154,
    Unknown155,
    Unknown156,
    Unknown157,
    Unknown158,
    Unknown159,
    Unknown15A,
    Unknown15B,
    Unknown15C,
    Unknown15D,
    Unknown15E,
    Unknown15F,
    OkKey,
    Select,
    Goto,
    Clear,
    Power2,
    OptionKey,
    Info,
    Time,
    Vendor,
    Archive,
    Program,
    Channel,
    Favorites,
    EPG,
    PVR,
    MHP,
    Language,
    Title,
    Subtitle,
    Angle,
    FullScreen,
    Mode,
    Keyboard,
    AspectRatio,
    PC,
    TV,
    TV2,
    VCR,
    VCR2,
    Sat,
    Sat2,
    CD,
    Tape,
    Radio,
    Tuner,
    Player,
    Text,
    Dvd,
    Aux,
    Mp3,
    Audio,
    Video,
    Directory,
    List,
    Memo,
    Calendar,
    Red,
    Green,
    Yellow,
    Blue,
    ChannelUp,
    ChannelDown,
    First,
    Last,
    Ab,
    Next,
    Restart,
    Slow,
    Shuffle,
    Break,
    Previous,
    Digits,
    Teen,
    Twen,
    Videophone,
    Games,
    ZoomIn,
    ZoomOut,
    ZoomReset,
    WordProcessor,
    Editor,
    Spreadsheet,
    GraphicsEditor,
    Presentation,
    Database,
    News,
    Voicemail,
    AddressBook,
    Messenger,
    DisplayToggle,
    SpellCheck,
    Logoff,
    Dollar,
    Euro,
    FrameBack,
    FrameForward,
    ContextMenu,
    MediaRepeat,
    TenChannelsUp,
    TenChannelsDown,
    Images,
    Unknown1BB,
    Unknown1BC,
    Unknown1BD,
    Unknown1BE,
    Unknown1BF,
    DelEol,
    DelEos,
    InsLine,
    DelLine,
    Unknown1C4,
    Unknown1C5,
    Unknown1C6,
    Unknown1C7,
    Unknown1C8,
    Unknown1C9,
    Unknown1CA,
    Unknown1CB,
    Unknown1CC,
    Unknown1CD,
    Unknown1CE,
    Unknown1CF,
    Fn,
    FnEsc,
    FnF1,
    FnF2,
    FnF3,
    FnF4,
    FnF5,
    FnF6,
    FnF7,
    FnF8,
    FnF9,
    FnF10,
    FnF11,
    FnF12,
    Fn1,
    Fn2,
    FnD,
    FnE,
    FnF,
    FnS,
    FnB,
    Unknown1E5,
    Unknown1E6,
    Unknown1E7,
    Unknown1E8,
    Unknown1E9,
    Unknown1EA,
    Unknown1EB,
    Unknown1EC,
    Unknown1ED,
    Unknown1EE,
    Unknown1EF,
    Unknown1F0,
    BrlDot1,
    BrlDot2,
    BrlDot3,
    BrlDot4,
    BrlDot5,
    BrlDot6,
    BrlDot7,
    BrlDot8,
    BrlDot9,
    BrlDot10,
    Unknown1FB,
    Unknown1FC,
    Unknown1FD,
    Unknown1FE,
    Unknown1FF,
    Numeric0,
    Numeric1,
    Numeric2,
    Numeric3,
    Numeric4,
    Numeric5,
    Numeric6,
    Numeric7,
    Numeric8,
    Numeric9,
    NumericStar,
    NumericPound,
    NumericA,
    NumericB,
    NumericC,
    NumericD,
    CameraFocus,
    WpsButton,
    TouchpadToggle,
    TouchpadOn,
    TouchpadOff,
    CameraZoomin,
    CameraZoomout,
    CameraUp,
    CameraDown,
    CameraLeft,
    CameraRight,
    AttendantOn,
    AttendantOff,
    AttendantToggle,
    LightsToggle,
    Unknown21F,
    ButtonDpadUp,
    ButtonDpadDown,
    ButtonDpadLeft,
    ButtonDpadRight,
    Unknown224,
    Unknown225,
    Unknown226,
    Unknown227,
    Unknown228,
    Unknown229,
    Unknown22A,
    Unknown22B,
    Unknown22C,
    Unknown22D,
    Unknown22E,
    Unknown22F,
    AlsToggle,
    RotateLockToggle,
    Unknown232,
    Unknown233,
    Unknown234,
    Unknown235,
    Unknown236,
    Unknown237,
    Unknown238,
    Unknown239,
    Unknown23A,
    Unknown23B,
    Unknown23C,
    Unknown23D,
    Unknown23E,
    Unknown23F,
    ButtonConfig,
    TaskManager,
    Journal,
    ControlPanel,
    AppSelect,
    Screensaver,
    Voicecommand,
    Assistant,
    KbdLayoutNext,
    EmojiPicker,
    Dictate,
    CameraAccessEnable,
    CameraAccessDisable,
    CameraAccessToggle,
    Unknown24E,
    Unknown24F,
    BrightnessMin,
    BrightnessMax,
    Unknown252,
    Unknown253,
    Unknown254,
    Unknown255,
    Unknown256,
    Unknown257,
    Unknown258,
    Unknown259,
    Unknown25A,
    Unknown25B,
    Unknown25C,
    Unknown25D,
    Unknown25E,
    Unknown25F,
    InputAssistPrev,
    InputAssistNext,
    InputAssistPrevGroup,
    InputAssistNextGroup,
    InputAssistAccept,
    InputAssistCancel,
    RightUp,
    RightDown,
    LeftUp,
    LeftDown,
    RootMenu,
    MediaTopMenu,
    Numeric11,
    Numeric12,
    AudioDesc,
    Audio3dMode,
    NextFavorite,
    StopRecord,
    PauseRecord,
    Vod,
    Unmute,
    FastReverse,
    SlowReverse,
    Data,
    OnscreenKeyboard,
    PrivacyScreenToggle,
    SelectiveScreenshot,
    NextElement,
    PreviousElement,
    AutopilotEngageToggle,
    MarkWaypoint,
    SOS,
    NavChart,
    FishingChart,
    SingleRangeRadar,
    DualRangeRadar,
    RadarOverlay,
    TraditionalSonar,
    ClearVuSonar,
    SideVuSonar,
    NavInfo,
    BrightnessMenu,
    Unknown28A,
    Unknown28B,
    Unknown28C,
    Unknown28D,
    Unknown28E,
    Unknown28F,
    Macro1,
    Macro2,
    Macro3,
    Macro4,
    Macro5,
    Macro6,
    Macro7,
    Macro8,
    Macro9,
    Macro10,
    Macro11,
    Macro12,
    Macro13,
    Macro14,
    Macro15,
    Macro16,
    Macro17,
    Macro18,
    Macro19,
    Macro20,
    Macro21,
    Macro22,
    Macro23,
    Macro24,
    Macro25,
    Macro26,
    Macro27,
    Macro28,
    Macro29,
    Macro30,
    Unknown2AE,
    Unknown2AF,
    MacroRecordStart,
    MacroRecordStop,
    MacroPresetCycle,
    MacroPreset1,
    MacroPreset2,
    MacroPreset3,
    Unknown2B6,
    Unknown2B7,
    KbdLcdMenu1,
    KbdLcdMenu2,
    KbdLcdMenu3,
    KbdLcdMenu4,
    KbdLcdMenu5,
    Unknown2BD,
    Unknown2BE,
    Unknown2BF,
    ButtonTriggerHappy1,
    ButtonTriggerHappy2,
    ButtonTriggerHappy3,
    ButtonTriggerHappy4,
    ButtonTriggerHappy5,
    ButtonTriggerHappy6,
    ButtonTriggerHappy7,
    ButtonTriggerHappy8,
    ButtonTriggerHappy9,
    ButtonTriggerHappy10,
    ButtonTriggerHappy11,
    ButtonTriggerHappy12,
    ButtonTriggerHappy13,
    ButtonTriggerHappy14,
    ButtonTriggerHappy15,
    ButtonTriggerHappy16,
    ButtonTriggerHappy17,
    ButtonTriggerHappy18,
    ButtonTriggerHappy19,
    ButtonTriggerHappy20,
    ButtonTriggerHappy21,
    ButtonTriggerHappy22,
    ButtonTriggerHappy23,
    ButtonTriggerHappy24,
    ButtonTriggerHappy25,
    ButtonTriggerHappy26,
    ButtonTriggerHappy27,
    ButtonTriggerHappy28,
    ButtonTriggerHappy29,
    ButtonTriggerHappy30,
    ButtonTriggerHappy31,
    ButtonTriggerHappy32,
    ButtonTriggerHappy33,
    ButtonTriggerHappy34,
    ButtonTriggerHappy35,
    ButtonTriggerHappy36,
    ButtonTriggerHappy37,
    ButtonTriggerHappy38,
    ButtonTriggerHappy39,
    ButtonTriggerHappy40,
    Unknown2E8,
    Unknown2E9,
    Unknown2EA,
    Unknown2EB,
    Unknown2EC,
    Unknown2ED,
    Unknown2EE,
    Unknown2EF,
    Unknown2F0,
    Unknown2F1,
    Unknown2F2,
    Unknown2F3,
    Unknown2F4,
    Unknown2F5,
    Unknown2F6,
    Unknown2F7,
    Unknown2F8,
    Unknown2F9,
    Unknown2FA,
    Unknown2FB,
    Unknown2FC,
    Unknown2FD,
    Unknown2FE,
    Unknown2FF,
}

} // verus!
