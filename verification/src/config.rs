//! Process configuration: a small record read once at startup from a
//! JSON document; anything unreadable falls back to the defaults.

use vstd::prelude::*;
use crate::codec::{sp_u64_arr, parse_u64_arr};
use crate::json::{expect_lit, parse_string, sp_lit, sp_str};
use crate::text::{chars_to_string, str_to_chars};
use vstd::string::StringExecFns;

verus! {

/// Mathematical view of the configuration.
pub ghost struct ConfigV {
    pub bot_name: Seq<char>,
    pub command_prefix: Seq<char>,
    pub source_url: Seq<char>,
    pub owners: Seq<u64>,
}

/// Settings the process reads once at startup.
pub struct Config {
    /// Name by which the program refers to itself.
    pub bot_name: String,
    /// The prefix that marks a message as a command.
    pub command_prefix: String,
    /// Where the program's source lives.
    pub source_url: String,
    /// Identities that pass the administrator checks.
    pub owners: Vec<u64>,
}

impl View for Config {
    type V = ConfigV;

    open spec fn view(&self) -> ConfigV {
        ConfigV {
            bot_name: self.bot_name@,
            command_prefix: self.command_prefix@,
            source_url: self.source_url@,
            owners: self.owners@,
        }
    }
}

/// The configuration used when no file is given or it cannot be read.
pub open spec fn spec_default_config() -> ConfigV {
    ConfigV {
        bot_name: "smexybot"@,
        command_prefix: ";"@,
        source_url: "https://github.com/indiv0/smexybot"@,
        owners: Seq::empty(),
    }
}

/// What parsing a configuration document yields.
pub open spec fn sp_config(s: Seq<char>) -> Option<(ConfigV, Seq<char>)> {
    match sp_lit(s, "{\"bot_name\":"@) {
        None => None,
        Some(s1) => match sp_str(s1) {
            None => None,
            Some((bot_name, s2)) => match sp_lit(s2, ",\"command_prefix\":"@) {
                None => None,
                Some(s3) => match sp_str(s3) {
                    None => None,
                    Some((prefix, s4)) => match sp_lit(s4, ",\"source_url\":"@) {
                        None => None,
                        Some(s5) => match sp_str(s5) {
                            None => None,
                            Some((url, s6)) => match sp_lit(s6, ",\"owners\":"@) {
                                None => None,
                                Some(s7) => match sp_u64_arr(s7) {
                                    None => None,
                                    Some((owners, s8)) => match sp_lit(s8, "}"@) {
                                        None => None,
                                        Some(s9) => Some(
                                            (
                                                ConfigV {
                                                    bot_name,
                                                    command_prefix: prefix,
                                                    source_url: url,
                                                    owners,
                                                },
                                                s9,
                                            ),
                                        ),
                                    },
                                },
                            },
                        },
                    },
                },
            },
        },
    }
}

impl Default for Config {
    /// The built-in settings.
    fn default() -> (r: Config)
        ensures
            r@ == spec_default_config(),
    {
        Config {
            bot_name: String::from_str("smexybot"),
            command_prefix: String::from_str(";"),
            source_url: String::from_str("https://github.com/indiv0/smexybot"),
            owners: Vec::new(),
        }
    }
}

fn parse_config(v: &Vec<char>, pos: usize) -> (r: Option<(Config, usize)>)
    requires
        pos <= v.len(),
    ensures
        match r {
            Some(p) => {
                &&& p.1 <= v.len()
                &&& sp_config(v@.skip(pos as int)) == Some((p.0@, v@.skip(p.1 as int)))
            },
            None => sp_config(v@.skip(pos as int)) is None,
        },
{
    let p1 = match expect_lit(v, pos, "{\"bot_name\":") {
        Some(x) => x,
        None => {
            return None;
        },
    };
    let (bot_chars, p2) = match parse_string(v, p1) {
        Some(x) => x,
        None => {
            return None;
        },
    };
    let p3 = match expect_lit(v, p2, ",\"command_prefix\":") {
        Some(x) => x,
        None => {
            return None;
        },
    };
    let (prefix_chars, p4) = match parse_string(v, p3) {
        Some(x) => x,
        None => {
            return None;
        },
    };
    let p5 = match expect_lit(v, p4, ",\"source_url\":") {
        Some(x) => x,
        None => {
            return None;
        },
    };
    let (url_chars, p6) = match parse_string(v, p5) {
        Some(x) => x,
        None => {
            return None;
        },
    };
    let p7 = match expect_lit(v, p6, ",\"owners\":") {
        Some(x) => x,
        None => {
            return None;
        },
    };
    let (owners, p8) = match parse_u64_arr(v, p7) {
        Some(x) => x,
        None => {
            return None;
        },
    };
    let p9 = match expect_lit(v, p8, "}") {
        Some(x) => x,
        None => {
            return None;
        },
    };
    let c = Config {
        bot_name: chars_to_string(&bot_chars),
        command_prefix: chars_to_string(&prefix_chars),
        source_url: chars_to_string(&url_chars),
        owners,
    };
    Some((c, p9))
}

impl Config {
    /// Builds the configuration from the file's contents: `None` when
    /// no file is present. Text that does not parse as a whole
    /// configuration document yields the defaults.
    pub fn new(contents: Option<&str>) -> (r: Config)
        ensures
            match contents {
                None => r@ == spec_default_config(),
                Some(t) => match sp_config(t@) {
                    Some(p) => {
                        if p.1.len() == 0 {
                            r@ == p.0
                        } else {
                            r@ == spec_default_config()
                        }
                    },
                    None => r@ == spec_default_config(),
                },
            },
    {
        match contents {
            None => Config::default(),
            Some(text) => {
                let chars = str_to_chars(text);
                proof {
                    assert(chars@.skip(0) =~= text@);
                }
                match parse_config(&chars, 0) {
                    Some((c, p)) => {
                        if p == chars.len() {
                            proof {
                                assert(chars@.skip(p as int).len() == 0);
                            }
                            c
                        } else {
                            proof {
                                assert(chars@.skip(p as int).len() > 0);
                            }
                            Config::default()
                        }
                    },
                    None => Config::default(),
                }
            },
        }
    }
}

} // verus!
