use lux_patcher::boot::{BootConfig, LDFWriter, Token};

#[test]
fn test_token() {
    let token = Token { install_path: "some\\path".to_owned() };
    let res = token.resolve("{%installpath}\\client\\boot.cfg");
    assert_eq!(res.as_str(), "some\\path\\client\\boot.cfg");
}

#[test]
fn token_unknown_names_vanish() {
    let token = Token { install_path: "p".to_owned() };
    assert_eq!(token.resolve("a{%other}b"), "ab");
}

#[test]
fn token_only_leftmost_match_is_replaced() {
    // Substitution rewrites one match and leaves the rest verbatim.
    assert_eq!(
        resolve_with_p("{%installpath}-{%installpath}"),
        "p-{%installpath}"
    );
    assert_eq!(resolve_with_p("{%other}x{%other}"), "x{%other}");
    assert_eq!(resolve_with_p("a{%other}b{%installpath}"), "ab{%installpath}");
}

fn resolve_with_p(input: &str) -> String {
    let token = Token { install_path: "p".to_owned() };
    token.resolve(input)
}

#[test]
fn token_non_tokens_pass_through() {
    // No name, unclosed brace, uppercase name: all left as they stand.
    assert_eq!(resolve_with_p("{%}x"), "{%}x");
    assert_eq!(resolve_with_p("{%open"), "{%open");
    assert_eq!(resolve_with_p("{%ABC}"), "{%ABC}");
    assert_eq!(resolve_with_p("plain"), "plain");
}

#[test]
fn ldf_writer_entries() {
    let mut w = LDFWriter::new(String::new());
    w.write_str("A", "b");
    w.write_u32("C", 5);
    w.write_i32("D", -3);
    w.write_bool("E", false);
    assert_eq!(w.into_inner(), "A=0:b,C=5:5,D=1:-3,E=7:0");
}

#[test]
fn ldf_writer_delim() {
    let mut w = LDFWriter::new(String::new());
    w.set_delim(";".to_owned());
    w.write_str("A", "1");
    w.write_str("B", "2");
    assert_eq!(w.into_inner(), "A=0:1;B=0:2");
}

#[test]
fn boot_cfg_text() {
    let config = BootConfig {
        server_name: "LU".to_owned(),
        patch_server_ip: "ip".to_owned(),
        patch_server_port: 443,
        auth_server_ip: "auth".to_owned(),
        logging: 0,
        data_center_id: 1,
        cp_code: 2,
        akamai_dlm: false,
        patch_server_dir: "dir".to_owned(),
        ugc_use_3d_services: true,
        ugc_server_ip: "uip".to_owned(),
        ugc_server_dir: "udir".to_owned(),
        manifest_file: "trunk.txt".to_owned(),
        passurl: "p".to_owned(),
        sign_in_url: "si".to_owned(),
        sign_up_url: "su".to_owned(),
        register_url: "r".to_owned(),
        crash_log_url: "c".to_owned(),
        locale: "en_US".to_owned(),
        track_disk_usage: true,
    };
    let expected = "SERVERNAME=0:LU,\r\n\
                    PATCHSERVERIP=0:ip,\r\n\
                    PATCHSERVERPORT=1:443,\r\n\
                    AUTHSERVERIP=0:auth,\r\n\
                    LOGGING=1:0,\r\n\
                    DATACENTERID=5:1,\r\n\
                    CPCODE=1:2,\r\n\
                    AKAMAIDLM=7:0,\r\n\
                    AKAMAIDLM=0:dir,\r\n\
                    UGCUSE3DSERVICES=7:1,\r\n\
                    UGCSERVERIP=0:uip,\r\n\
                    UGCSERVERDIR=0:udir,\r\n\
                    MANIFESTFILE=0:trunk.txt,\r\n\
                    PASSURL=0:p,\r\n\
                    SIGNINURL=0:si,\r\n\
                    SIGNUPURL=0:su,\r\n\
                    REGISTERURL=0:r,\r\n\
                    CRASHLOGURL=0:c,\r\n\
                    LOCALE=0:en_US,\r\n\
                    TRACK_DSK_USAGE=7:1";
    assert_eq!(config.to_cfg(), expected);
}
