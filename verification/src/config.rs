//! Settings and their defaults.

use crate::text;
use vstd::prelude::*;
use vstd::string::*;

verus! {

/// Where the settings are read from, unless the environment says otherwise.
pub const DEFAULT_CONFIG_PATH: &'static str = "config/broker.yaml";

/// The variable of the environment that names the file with the settings.
pub const CONFIG_PATH_ENV: &'static str = "BROKER_CONFIG";

/// How a reply is rewritten before it is spoken.
#[derive(Debug, Clone)]
pub struct VoiceOutputConfig {
    /// Whether replies are rewritten at all.
    pub enabled: bool,
    /// How many characters are spoken at most; 0 for any number.
    pub max_chars: usize,
    /// What is said in place of the part that was cut off.
    pub truncate_suffix: String,
    pub strip_emphasis: bool,
    pub strip_headings: bool,
    pub expand_lists: bool,
    pub strip_markdown_links: bool,
    pub drop_bare_urls: bool,
    pub drop_code: bool,
    pub drop_tables: bool,
    pub drop_emoji: bool,
    pub collapse_whitespace: bool,
    /// Whether only Chinese is to be spoken where a reply is mostly not Chinese.
    pub require_chinese: bool,
    /// `"warn"`, `"drop"` or `"pass"`.
    pub require_chinese_action: String,
}

impl Default for VoiceOutputConfig {
    fn default() -> (r: Self)
        ensures
            r.enabled,
            r.max_chars == 120,
            r.truncate_suffix@ == "，后面的内容省略了"@,
            r.strip_emphasis,
            r.strip_headings,
            r.expand_lists,
            r.strip_markdown_links,
            r.drop_bare_urls,
            r.drop_code,
            r.drop_tables,
            r.drop_emoji,
            r.collapse_whitespace,
            !r.require_chinese,
            r.require_chinese_action@ == "warn"@,
    {
        VoiceOutputConfig {
            enabled: true,
            max_chars: 120,
            truncate_suffix: "，后面的内容省略了".to_owned(),
            strip_emphasis: true,
            strip_headings: true,
            expand_lists: true,
            strip_markdown_links: true,
            drop_bare_urls: true,
            drop_code: true,
            drop_tables: true,
            drop_emoji: true,
            collapse_whitespace: true,
            require_chinese: false,
            require_chinese_action: "warn".to_owned(),
        }
    }
}

/// The broker's own settings.
#[derive(Debug, Clone)]
pub struct BrokerConfig {
    pub host: String,
    pub mqtt_port: u16,
    pub mqtts_port: Option<u16>,
    pub max_connections: Option<u32>,
    pub auth: Option<BrokerAuthConfig>,
    pub tls: Option<BrokerTlsConfig>,
}

#[derive(Debug, Clone)]
pub struct BrokerAuthConfig {
    pub kind: String,
    pub file: Option<String>,
}

#[derive(Debug, Clone)]
pub struct BrokerTlsConfig {
    pub cert: String,
    pub key: String,
}

/// The settings of the management interface.
#[derive(Debug, Clone)]
pub struct ApiConfig {
    pub enabled: bool,
    pub host: String,
    pub port: u16,
    pub tls: bool,
    pub token: ApiTokenConfig,
}

#[derive(Debug, Clone)]
pub struct ApiTokenConfig {
    pub secret: String,
    pub expire_secs: u64,
}

/// The settings of the agent.
#[derive(Debug, Clone)]
pub struct AgentConfig {
    pub llm: LlmConfig,
    pub channels: ChannelsConfig,
    pub skills: SkillsConfig,
    /// Where the agent's workspace is, relative to the working directory.
    pub workspace_dir: String,
    /// `"openclaw"` or `"aieos"`.
    pub identity_format: String,
    pub voice_output: VoiceOutputConfig,
}

#[derive(Debug, Clone)]
pub struct LlmConfig {
    pub api_url: String,
    pub model: String,
    pub api_key: Option<String>,
    pub max_tokens: Option<u32>,
}

#[derive(Debug, Clone)]
pub struct ChannelsConfig {
    pub text: TextChannelConfig,
    pub qq: QqChannelConfig,
    pub voice: VoiceChannelConfig,
}

impl Default for ChannelsConfig {
    fn default() -> (r: Self)
        ensures
            r.text.enabled,
            is_default_qq(r.qq),
            is_default_voice(r.voice),
    {
        ChannelsConfig {
            text: TextChannelConfig::default(),
            qq: QqChannelConfig::default(),
            voice: VoiceChannelConfig::default(),
        }
    }
}

#[derive(Debug, Clone)]
pub struct TextChannelConfig {
    pub enabled: bool,
}

impl Default for TextChannelConfig {
    fn default() -> (r: Self)
        ensures
            r.enabled,
    {
        TextChannelConfig { enabled: true }
    }
}

#[derive(Debug, Clone)]
pub struct QqChannelConfig {
    pub enabled: bool,
    pub onebot_url: Option<String>,
    pub authorized_users: Vec<String>,
}

/// Whether these are the settings of the QQ channel where none are set.
pub open spec fn is_default_qq(c: QqChannelConfig) -> bool {
    &&& !c.enabled
    &&& c.onebot_url is None
    &&& c.authorized_users@.len() == 0
}

impl Default for QqChannelConfig {
    fn default() -> (r: Self)
        ensures
            is_default_qq(r),
    {
        QqChannelConfig { enabled: false, onebot_url: None, authorized_users: Vec::new() }
    }
}

#[derive(Debug, Clone)]
pub struct SkillsConfig {
    pub mqtt_manager: MqttManagerSkillConfig,
}

#[derive(Debug, Clone)]
pub struct MqttManagerSkillConfig {
    pub enabled: bool,
    pub api_base_url: String,
    pub api_token: String,
}

/// The patterns of replies that ask something back, where none are set.
pub open spec fn followup_patterns() -> Seq<Seq<char>> {
    seq!["[?？]\\s*$"@, "请确认"@, "是否"@, "对吗"@, "请告诉我"@, "请提供"@]
}

/// The patterns of replies that ask something back, where none are set.
pub fn default_followup_patterns() -> (r: Vec<String>)
    ensures
        r.deep_view() == followup_patterns(),
{
    let mut r: Vec<String> = Vec::new();
    r.push("[?？]\\s*$".to_owned());
    r.push("请确认".to_owned());
    r.push("是否".to_owned());
    r.push("对吗".to_owned());
    r.push("请告诉我".to_owned());
    r.push("请提供".to_owned());
    assert(r.deep_view() =~= followup_patterns());
    r
}

/// The settings of the voice front end, but for those that are fractions.
#[derive(Debug, Clone)]
pub struct VoiceChannelConfig {
    pub enabled: bool,
    /// `"stub"` or `"sherpa"`.
    pub engine: String,
    pub wake_word: String,
    pub sample_rate: u32,
    pub capture_timeout_secs: u64,
    pub followup_timeout_secs: u64,
    /// What is said when the wake word was heard, before the user speaks.
    pub wake_prompt: String,
    /// What is said when the wake word is heard while a task is running.
    pub busy_prompt: String,
    /// What is said when the user did not speak in time.
    pub timeout_prompt: String,
    /// Patterns of replies that ask something back.
    pub follow_up_patterns: Vec<String>,
    /// Wake words that end the session instead of starting one.
    pub exit_wake_words: Vec<String>,
    pub kws_encoder: Option<String>,
    pub kws_decoder: Option<String>,
    pub kws_joiner: Option<String>,
    pub kws_tokens: Option<String>,
    pub kws_keywords_file: Option<String>,
    /// Keywords of the form `<tokens separated by blanks> @<alias>`.
    pub kws_keywords_inline: Vec<String>,
    pub kws_num_threads: i32,
    pub kws_provider: String,
    pub kws_debug: bool,
    pub asr_encoder: Option<String>,
    pub asr_decoder: Option<String>,
    pub asr_joiner: Option<String>,
    pub asr_tokens: Option<String>,
    pub num_threads: i32,
    pub provider: String,
    /// `"vits"`, `"kokoro"` or `"matcha"`.
    pub tts_backend: String,
    pub tts_model: Option<String>,
    pub tts_tokens: Option<String>,
    pub tts_data_dir: Option<String>,
    pub tts_voices: Option<String>,
    pub tts_dict_dir: Option<String>,
    pub tts_lexicons: Vec<String>,
    pub tts_vocoder: Option<String>,
    pub tts_rule_fsts: Vec<String>,
    pub tts_speaker_id: i32,
    pub tts_debug: bool,
    pub audio_input_device: Option<String>,
    pub audio_output_device: Option<String>,
    /// The model that finds the end of speech; without one the level is used.
    pub vad_model: Option<String>,
    pub vad_min_silence_ms: u32,
    pub vad_min_speech_ms: u32,
    pub vad_num_threads: i32,
    pub silence_ms: u32,
    pub pre_speech_ms: u32,
    /// What the stand-in recogniser hears, in turn.
    pub stub_utterances: Vec<String>,
    /// How often the stand-in wake detector fires.
    pub stub_wake_interval_secs: u64,
}

/// Whether these are the settings of the voice front end where none are set.
pub open spec fn is_default_voice(c: VoiceChannelConfig) -> bool {
    &&& !c.enabled
    &&& c.engine@ == "stub"@
    &&& c.wake_word@ == "你好小助"@
    &&& c.sample_rate == 16000
    &&& c.capture_timeout_secs == 8
    &&& c.followup_timeout_secs == 6
    &&& c.wake_prompt@ == "在呢"@
    &&& c.busy_prompt@ == "正在执行任务"@
    &&& c.timeout_prompt@ == "等待超时"@
    &&& c.follow_up_patterns.deep_view() == followup_patterns()
    &&& c.exit_wake_words@.len() == 0
    &&& c.kws_encoder is None
    &&& c.kws_decoder is None
    &&& c.kws_joiner is None
    &&& c.kws_tokens is None
    &&& c.kws_keywords_file is None
    &&& c.kws_keywords_inline@.len() == 0
    &&& c.kws_num_threads == 2
    &&& c.kws_provider@ == "cpu"@
    &&& !c.kws_debug
    &&& c.asr_encoder is None
    &&& c.asr_decoder is None
    &&& c.asr_joiner is None
    &&& c.asr_tokens is None
    &&& c.num_threads == 2
    &&& c.provider@ == "cpu"@
    &&& c.tts_backend@ == "vits"@
    &&& c.tts_model is None
    &&& c.tts_tokens is None
    &&& c.tts_data_dir is None
    &&& c.tts_voices is None
    &&& c.tts_dict_dir is None
    &&& c.tts_lexicons@.len() == 0
    &&& c.tts_vocoder is None
    &&& c.tts_rule_fsts@.len() == 0
    &&& c.tts_speaker_id == 3
    &&& !c.tts_debug
    &&& c.audio_input_device is None
    &&& c.audio_output_device is None
    &&& c.vad_model is None
    &&& c.vad_min_silence_ms == 500
    &&& c.vad_min_speech_ms == 250
    &&& c.vad_num_threads == 1
    &&& c.silence_ms == 500
    &&& c.pre_speech_ms == 300
    &&& c.stub_utterances@.len() == 0
    &&& c.stub_wake_interval_secs == 5
}

impl Default for VoiceChannelConfig {
    fn default() -> (r: Self)
        ensures
            is_default_voice(r),
    {
        VoiceChannelConfig {
            enabled: false,
            engine: "stub".to_owned(),
            wake_word: "你好小助".to_owned(),
            sample_rate: 16000,
            capture_timeout_secs: 8,
            followup_timeout_secs: 6,
            wake_prompt: "在呢".to_owned(),
            busy_prompt: "正在执行任务".to_owned(),
            timeout_prompt: "等待超时".to_owned(),
            follow_up_patterns: default_followup_patterns(),
            exit_wake_words: Vec::new(),
            kws_encoder: None,
            kws_decoder: None,
            kws_joiner: None,
            kws_tokens: None,
            kws_keywords_file: None,
            kws_keywords_inline: Vec::new(),
            kws_num_threads: 2,
            kws_provider: "cpu".to_owned(),
            kws_debug: false,
            asr_encoder: None,
            asr_decoder: None,
            asr_joiner: None,
            asr_tokens: None,
            num_threads: 2,
            provider: "cpu".to_owned(),
            tts_backend: "vits".to_owned(),
            tts_model: None,
            tts_tokens: None,
            tts_data_dir: None,
            tts_voices: None,
            tts_dict_dir: None,
            tts_lexicons: Vec::new(),
            tts_vocoder: None,
            tts_rule_fsts: Vec::new(),
            tts_speaker_id: 3,
            tts_debug: false,
            audio_input_device: None,
            audio_output_device: None,
            vad_model: None,
            vad_min_silence_ms: 500,
            vad_min_speech_ms: 250,
            vad_num_threads: 1,
            silence_ms: 500,
            pre_speech_ms: 300,
            stub_utterances: Vec::new(),
            stub_wake_interval_secs: 5,
        }
    }
}

/// All settings.
#[derive(Debug, Clone)]
pub struct Config {
    pub broker: BrokerConfig,
    pub api: ApiConfig,
    pub agent: AgentConfig,
}

/// An address to listen on.
pub open spec fn bind_addr(host: Seq<char>, port: u16) -> Seq<char> {
    host + seq![':'] + text::decimal(port as nat)
}

fn bind_text(host: &String, port: u16) -> (s: String)
    ensures
        s@ == bind_addr(host@, port),
{
    let mut s = host.clone();
    s.push(':');
    text::push_decimal(&mut s, port as u64);
    assert(s@ =~= bind_addr(host@, port));
    s
}

impl Config {
    /// Where the broker listens for clients.
    pub fn mqtt_bind_addr(&self) -> (s: String)
        ensures
            s@ == bind_addr(self.broker.host@, self.broker.mqtt_port),
    {
        bind_text(&self.broker.host, self.broker.mqtt_port)
    }

    /// Where the management interface listens.
    pub fn api_bind_addr(&self) -> (s: String)
        ensures
            s@ == bind_addr(self.api.host@, self.api.port),
    {
        bind_text(&self.api.host, self.api.port)
    }
}

} // verus!
