use cofresenhas_rs::crypto::VaultCipher;
use cofresenhas_rs::server::auth::{
    bearer_token, current_user_from_claims, hash_password, setup_2fa, token_claims,
    verify_password, verify_totp, verify_totp_at, Claims,
};
use cofresenhas_rs::server::error::AppError;
use cofresenhas_rs::server::handlers::audit::audit_entry;
use cofresenhas_rs::server::handlers::auth::{
    authenticate, change_password_hash, check_master_password, confirm_two_factor,
    master_password_status, prepare_registration, profile_response, LoginOutcome, LoginRecord,
};
use cofresenhas_rs::server::handlers::gerador::{
    calcular_forca, capitalizar_palavra, gerar_aleatoria, gerar_por_palavras, gerar_senha,
};
use cofresenhas_rs::server::handlers::senhas::{
    cipher_for_user, csv_escape, deletion_outcome, export_csv, list_senhas, plan_import,
    restored_response, row_to_response, saved_response, version_to_response, versions_to_responses,
    ListQuery, SenhaList,
};
use cofresenhas_rs::server::models::{
    categoria_padrao, ChangePasswordRequest, CriarSenhaRequest, ForcaSenha, GerarSenhaRequest,
    LoginRequest, PagedResponse, RegisterRequest, SenhaResponse, SenhaRow, SenhaVersaoRow,
};
use cofresenhas_rs::text::{i64_to_decimal, parse_i64};
use totp_rs::{Algorithm, Secret, TOTP};

const NOW: u64 = 1_725_029_869;

fn totp_code(secret_b32: &str, time: u64) -> String {
    let bytes = Secret::Encoded(secret_b32.to_string()).to_bytes().unwrap();
    TOTP::new_unchecked(Algorithm::SHA1, 6, 1, 30, bytes, None, "user".to_string()).generate(time)
}

fn login_record(senha: &str, tfa: Option<&str>) -> LoginRecord {
    LoginRecord {
        id: 7,
        nome: "Teste".into(),
        email: "user@teste.com".into(),
        senha_hash: hash_password(senha).unwrap(),
        two_factor_enabled: tfa.is_some(),
        two_factor_secret: tfa.map(|s| s.to_string()),
    }
}

fn login_request(senha: &str, code: Option<&str>) -> LoginRequest {
    LoginRequest {
        email: "user@teste.com".into(),
        senha: senha.into(),
        totp_code: code.map(|c| c.to_string()),
    }
}

fn sample_row(cipher: &VaultCipher, id: i64, senha: &str) -> SenhaRow {
    let (ct, nonce) = cipher.encrypt(senha).unwrap();
    SenhaRow {
        id,
        titulo: format!("T{id}"),
        login: "daniel".into(),
        senha_ciphertext: ct,
        senha_nonce: nonce,
        url: Some("https://x".into()),
        notas: None,
        categoria: "Pessoal".into(),
        criado_em: "2024-01-01".into(),
        atualizado_em: "2024-01-02".into(),
    }
}

fn criar(titulo: &str, login: &str, senha: &str) -> CriarSenhaRequest {
    CriarSenhaRequest {
        titulo: titulo.into(),
        login: login.into(),
        senha: senha.into(),
        url: None,
        notas: None,
        categoria: categoria_padrao(),
    }
}

#[test]
fn register_and_login_roundtrip() {
    let req = RegisterRequest { nome: "Teste".into(), email: "user@teste.com".into(), senha: "senha123".into() };
    let hash = prepare_registration(&req, None).unwrap();
    let user = LoginRecord {
        id: 1,
        nome: req.nome.clone(),
        email: req.email.clone(),
        senha_hash: hash,
        two_factor_enabled: false,
        two_factor_secret: None,
    };
    match authenticate(Some(user), &login_request("senha123", None), NOW).unwrap() {
        LoginOutcome::Authenticated { id, email, .. } => {
            assert_eq!(id, 1);
            assert_eq!(email, "user@teste.com");
        }
        LoginOutcome::TwoFactorRequired => panic!("no 2FA configured"),
    }
}

#[test]
fn registering_a_taken_email_is_a_conflict() {
    let req = RegisterRequest { nome: "A".into(), email: "a@b".into(), senha: "x".into() };
    match prepare_registration(&req, Some(3)) {
        Err(AppError::Conflict(m)) => assert_eq!(m, "Email já cadastrado."),
        _ => panic!("expected conflict"),
    }
}

#[test]
fn login_with_wrong_password_is_unauthorized() {
    let r = authenticate(Some(login_record("senha123", None)), &login_request("senha-errada", None), NOW);
    assert!(matches!(r, Err(AppError::Unauthorized)));
    assert_eq!(AppError::Unauthorized.status_code(), 401);
}

#[test]
fn login_of_unknown_email_is_unauthorized() {
    assert!(matches!(authenticate(None, &login_request("x", None), NOW), Err(AppError::Unauthorized)));
}

#[test]
fn login_with_two_factor_asks_for_and_checks_the_code() {
    let setup = setup_2fa("user@teste.com").unwrap();
    let secret = setup.secret_base32.clone();
    let user = || login_record("senha123", Some(&secret));
    assert!(matches!(
        authenticate(Some(user()), &login_request("senha123", None), NOW).unwrap(),
        LoginOutcome::TwoFactorRequired
    ));
    let good = totp_code(&secret, NOW);
    assert!(matches!(
        authenticate(Some(user()), &login_request("senha123", Some(&good)), NOW).unwrap(),
        LoginOutcome::Authenticated { id: 7, .. }
    ));
    let bad = if good == "000000" { "111111" } else { "000000" };
    if totp_code(&secret, NOW - 30) != bad && totp_code(&secret, NOW + 30) != bad {
        assert!(matches!(
            authenticate(Some(user()), &login_request("senha123", Some(bad)), NOW),
            Err(AppError::Unauthorized)
        ));
    }
    let mut broken = user();
    broken.two_factor_secret = None;
    match authenticate(Some(broken), &login_request("senha123", None), NOW) {
        Err(AppError::Internal(m)) => assert_eq!(m, "2FA inconsistente"),
        _ => panic!("expected inconsistent 2FA"),
    }
}

#[test]
fn totp_window_accepts_one_step_each_way() {
    let setup = setup_2fa("a@b.c").unwrap();
    let s = setup.secret_base32;
    assert!(verify_totp_at(&s, &totp_code(&s, NOW), NOW));
    assert!(verify_totp_at(&s, &totp_code(&s, NOW - 30), NOW));
    assert!(verify_totp_at(&s, &totp_code(&s, NOW + 30), NOW));
    let far = totp_code(&s, NOW + 600);
    if far != totp_code(&s, NOW) && far != totp_code(&s, NOW - 30) && far != totp_code(&s, NOW + 30) {
        assert!(!verify_totp_at(&s, &far, NOW));
    }
    assert!(!verify_totp_at("nao-e-base32!", "123456", NOW));
    // a secret below 128 bits is refused by TOTP::new
    assert!(!verify_totp_at("MFRGG", &totp_code("MFRGG", NOW), NOW));
    let clock = std::time::SystemTime::now().duration_since(std::time::UNIX_EPOCH).unwrap().as_secs();
    assert!(verify_totp(&s, &totp_code(&s, clock)));
}

#[test]
fn two_factor_setup_gives_secret_and_uri() {
    let setup = setup_2fa("user@teste.com").unwrap();
    assert_eq!(setup.secret_base32.len(), 32);
    assert!(setup.otpauth_uri.starts_with("otpauth://totp/CofreSenhas:user%40teste.com?secret="));
    assert!(setup.otpauth_uri.contains(&setup.secret_base32));
    assert!(setup.otpauth_uri.ends_with("&issuer=CofreSenhas"));
    assert!(matches!(setup_2fa("a:b"), Err(AppError::Internal(_))));
}

#[test]
fn confirming_two_factor() {
    match confirm_two_factor(None, "123456", NOW) {
        Err(AppError::BadRequest(m)) => assert_eq!(m, "2FA não configurado."),
        _ => panic!(),
    }
    let s = setup_2fa("x@y").unwrap().secret_base32;
    assert!(confirm_two_factor(Some(s.clone()), &totp_code(&s, NOW), NOW).is_ok());
    match confirm_two_factor(Some(s), "abc", NOW) {
        Err(AppError::BadRequest(m)) => assert_eq!(m, "Código inválido."),
        _ => panic!(),
    }
}

#[test]
fn master_password_checks() {
    match check_master_password(None, "x") {
        Err(AppError::BadRequest(m)) => assert_eq!(m, "Master password incorreta."),
        _ => panic!(),
    }
    let h = hash_password("mestra").unwrap();
    assert!(check_master_password(Some(h.clone()), "mestra").is_ok());
    assert!(matches!(check_master_password(Some(h), "outra"), Err(AppError::BadRequest(_))));
    assert!(matches!(check_master_password(Some("lixo".into()), "x"), Err(AppError::Internal(_))));
    assert!(master_password_status(&Some("h".into())).is_configured);
    assert!(!master_password_status(&None).is_configured);
    let p = profile_response(1, "n".into(), "e".into(), "c".into(), true, &None);
    assert!(p.two_factor_enabled && !p.master_password_configured);
}

#[test]
fn changing_password() {
    let current = hash_password("velha").unwrap();
    let bad = ChangePasswordRequest { senha_atual: "errada".into(), nova_senha: "nova".into() };
    match change_password_hash(&current, &bad) {
        Err(AppError::BadRequest(m)) => assert_eq!(m, "Senha atual incorreta."),
        _ => panic!(),
    }
    let good = ChangePasswordRequest { senha_atual: "velha".into(), nova_senha: "nova".into() };
    let new_hash = change_password_hash(&current, &good).unwrap();
    assert!(verify_password("nova", &new_hash).unwrap());
    assert!(!verify_password("velha", &new_hash).unwrap());
}

#[test]
fn token_subject_roundtrip() {
    for id in [0i64, 1, 42, -7, i64::MAX, i64::MIN] {
        let claims = token_claims(id, "e@x", "Nome", NOW);
        assert_eq!(claims.sub, id.to_string());
        assert_eq!(claims.exp, (NOW + 28800) as usize);
        let user = current_user_from_claims(claims).unwrap();
        assert_eq!(user.id, id);
        assert_eq!(user.email, "e@x");
    }
    let bad = Claims { sub: "12a".into(), email: "e".into(), nome: "n".into(), exp: 0 };
    assert!(matches!(current_user_from_claims(bad), Err(AppError::Unauthorized)));
}

#[test]
fn decimal_text_matches_std() {
    for n in [0i64, 9, 10, 99, 100, 12345, -1, -10, i64::MAX, i64::MIN] {
        assert_eq!(i64_to_decimal(n), n.to_string());
        assert_eq!(parse_i64(&n.to_string()), Some(n));
    }
    for s in ["", "-", "+", "1 ", " 1", "9223372036854775808", "-9223372036854775809", "1.0", "abc", "99999999999999999999999"] {
        assert_eq!(parse_i64(s), s.parse::<i64>().ok(), "{s:?}");
    }
    for s in ["+5", "-0", "007", "-9223372036854775808", "9223372036854775807"] {
        assert_eq!(parse_i64(s), s.parse::<i64>().ok(), "{s:?}");
    }
}

#[test]
fn protected_route_without_token_is_unauthorized() {
    assert!(matches!(bearer_token(None), Err(AppError::Unauthorized)));
    assert!(matches!(bearer_token(Some("Basic abc")), Err(AppError::Unauthorized)));
    assert!(matches!(bearer_token(Some("Bearer")), Err(AppError::Unauthorized)));
    assert_eq!(bearer_token(Some("Bearer abc.def")).unwrap(), "abc.def");
    assert_eq!(bearer_token(Some("Bearer ")).unwrap(), "");
}

#[test]
fn error_status_and_messages() {
    assert_eq!(AppError::BadRequest("x".into()).status_code(), 400);
    assert_eq!(AppError::NotFound.status_code(), 404);
    assert_eq!(AppError::Conflict("c".into()).status_code(), 409);
    assert_eq!(AppError::Internal("i".into()).status_code(), 500);
    assert_eq!(AppError::NotFound.response_message(), "recurso não encontrado");
    assert_eq!(AppError::Internal("i".into()).response_message(), "i");
    assert_eq!(AppError::Internal("i".into()).display_text(), "erro interno: i");
    assert_eq!(AppError::Unauthorized.display_text(), "credenciais inválidas");
    match AppError::from_vault_error(cofresenhas_rs::error::VaultError::InvalidMasterPassword) {
        AppError::Internal(m) => assert_eq!(m, "master password incorreta"),
        _ => panic!(),
    }
}

#[test]
fn senha_crud_roundtrip() {
    let cipher = cipher_for_user(&[1u8; 16], "teste-encryption-secret").unwrap();
    let row = sample_row(&cipher, 5, "segredo123");
    let resp = row_to_response(&row, &cipher).unwrap();
    assert_eq!(resp.senha, "segredo123");
    assert_eq!(resp.id, 5);
    assert_eq!(resp.url.as_deref(), Some("https://x"));
    assert!(deletion_outcome(1).is_ok());
    assert!(matches!(deletion_outcome(0), Err(AppError::NotFound)));
}

#[test]
fn senha_de_um_usuario_nao_aparece_para_outro() {
    // each user has their own key: rows of one do not decrypt under the other's
    let a = cipher_for_user(&[1u8; 16], "segredo-do-servidor").unwrap();
    let b = cipher_for_user(&[2u8; 16], "segredo-do-servidor").unwrap();
    let row = sample_row(&a, 1, "x");
    assert!(matches!(row_to_response(&row, &b), Err(AppError::Internal(_))));
    assert!(matches!(cipher_for_user(&[1u8; 4], "s"), Err(AppError::Internal(m)) if m == "falha de criptografia: salt is too short"));
}

#[test]
fn listing_with_and_without_pages() {
    let cipher = VaultCipher::new(&[8u8; 32]);
    let rows: Vec<SenhaRow> = (1..=5).map(|i| sample_row(&cipher, i, &format!("p{i}"))).collect();
    match list_senhas(&rows, &ListQuery { page: None, page_size: None }, &cipher).unwrap() {
        SenhaList::All(v) => assert_eq!(v.iter().map(|s| s.id).collect::<Vec<_>>(), vec![1, 2, 3, 4, 5]),
        SenhaList::Paged(_) => panic!(),
    }
    match list_senhas(&rows, &ListQuery { page: Some(2), page_size: Some(2) }, &cipher).unwrap() {
        SenhaList::Paged(p) => {
            assert_eq!(p.items.iter().map(|s| s.senha.clone()).collect::<Vec<_>>(), vec!["p3", "p4"]);
            assert_eq!((p.page, p.page_size, p.total_count, p.total_pages), (2, 2, 5, 3));
        }
        SenhaList::All(_) => panic!(),
    }
    match list_senhas(&rows, &ListQuery { page: Some(9), page_size: Some(500) }, &cipher).unwrap() {
        SenhaList::Paged(p) => {
            assert!(p.items.is_empty());
            assert_eq!((p.page_size, p.total_pages), (100, 1));
        }
        SenhaList::All(_) => panic!(),
    }
    match list_senhas(&rows, &ListQuery { page: Some(1), page_size: Some(0) }, &cipher).unwrap() {
        SenhaList::Paged(p) => assert_eq!((p.items.len(), p.page_size, p.total_pages), (1, 1, 5)),
        SenhaList::All(_) => panic!(),
    }
    match list_senhas(&rows, &ListQuery { page: Some(0), page_size: None }, &cipher).unwrap() {
        SenhaList::All(v) => assert_eq!(v.len(), 5),
        SenhaList::Paged(_) => panic!(),
    }
    let p: PagedResponse<u8> = PagedResponse::new(vec![], 1, 20, 0);
    assert_eq!(p.total_pages, 0);
    let p: PagedResponse<u8> = PagedResponse::new(vec![], 1, 20, 41);
    assert_eq!(p.total_pages, 3);
}

#[test]
fn history_and_restore() {
    let cipher = VaultCipher::new(&[6u8; 32]);
    let (ct, nonce) = cipher.encrypt("antiga").unwrap();
    let v = SenhaVersaoRow { id: 3, titulo: "Velho".into(), login: "l".into(), senha_ciphertext: ct, senha_nonce: nonce, alterado_em: "ontem".into() };
    let r = version_to_response(&v, &cipher).unwrap();
    assert_eq!((r.senha.as_str(), r.titulo.as_str()), ("antiga", "Velho"));
    let current = sample_row(&cipher, 9, "atual");
    let restored = restored_response(9, &v, &current, &cipher).unwrap();
    assert_eq!(restored.senha, "antiga");
    assert_eq!(restored.titulo, "Velho");
    assert_eq!(restored.url.as_deref(), Some("https://x"));
    assert_eq!(restored.criado_em, "2024-01-01");
}

#[test]
fn csv_export() {
    assert_eq!(csv_escape(""), "");
    assert_eq!(csv_escape("simples"), "simples");
    assert_eq!(csv_escape("a,b"), "\"a,b\"");
    assert_eq!(csv_escape("diz \"oi\""), "\"diz \"\"oi\"\"\"");
    assert_eq!(csv_escape("linha\nnova"), "\"linha\nnova\"");
    let items = vec![SenhaResponse {
        id: 1,
        titulo: "GitHub".into(),
        login: "daniel".into(),
        senha: "a,b".into(),
        url: None,
        notas: Some("x".into()),
        categoria: "Pessoal".into(),
        criado_em: "c".into(),
    }];
    assert_eq!(
        export_csv(&items),
        "Titulo,Login,Senha,URL,Categoria,Notas\nGitHub,daniel,\"a,b\",,Pessoal,x\n"
    );
    assert_eq!(export_csv(&vec![]), "Titulo,Login,Senha,URL,Categoria,Notas\n");
}

#[test]
fn import_json_skips_duplicates_on_second_run() {
    let items = vec![criar("A", "a", "1"), criar("B", "b", "2")];
    let first = plan_import(&vec![], &items);
    assert_eq!(first.to_insert, vec![0, 1]);
    assert_eq!(first.skipped, 0);
    let stored: Vec<(String, String)> =
        first.to_insert.iter().map(|&i| (items[i].titulo.clone(), items[i].login.clone())).collect();
    let second = plan_import(&stored, &items);
    assert_eq!(second.to_insert.len(), 0);
    assert_eq!(second.skipped, 2);
}

#[test]
fn import_skips_repeats_inside_one_payload() {
    let items = vec![criar("A", "a", "1"), criar("A", "a", "2"), criar("A", "b", "3")];
    let plan = plan_import(&vec![("X".into(), "x".into())], &items);
    assert_eq!(plan.to_insert, vec![0, 2]);
    assert_eq!(plan.skipped, 1);
    assert_eq!(categoria_padrao(), "Pessoal");
}

#[test]
fn gerador_respeita_tamanho_pedido() {
    let senha = gerar_aleatoria(20, true, true, false);
    assert_eq!(senha.chars().count(), 20);
    assert!(!senha.chars().any(|c| !c.is_alphanumeric()));
    let resp = gerar_senha(
        &GerarSenhaRequest::Aleatorio { tamanho: 20, usar_maiusculas: true, usar_numeros: true, usar_especiais: false },
        &vec![],
    )
    .unwrap();
    assert_eq!(resp.senha.chars().count(), 20);
    assert_eq!(resp.forca, calcular_forca(&resp.senha));
    assert!(gerar_aleatoria(50, false, false, false).chars().all(|c| c.is_ascii_lowercase()));
    assert_eq!(gerar_aleatoria(0, true, true, true), "");
    let specials = "!@#$%^&*()_+-=[]{}|;:,.<>?";
    assert!(gerar_aleatoria(200, false, false, true)
        .chars()
        .all(|c| c.is_ascii_lowercase() || specials.contains(c)));
}

#[test]
fn gerador_por_palavras_gera_frase_com_hifen() {
    let palavras: Vec<String> = ["cavalo", "jardim", "fogueira", "janela"].iter().map(|s| s.to_string()).collect();
    let senha = gerar_por_palavras(4, true, true, &palavras).unwrap();
    let partes: Vec<&str> = senha.split('-').collect();
    assert_eq!(partes.len(), 5);
    assert!(partes[4].chars().all(|c| c.is_ascii_digit()));
    let n: u32 = partes[4].parse().unwrap();
    assert!((10..100).contains(&n));
    for p in &partes[..4] {
        assert!(palavras.iter().any(|w| capitalizar_palavra(w) == *p));
    }
    assert_eq!(gerar_por_palavras(1, false, false, &palavras).unwrap().split('-').count(), 3);
    assert_eq!(gerar_por_palavras(20, false, false, &palavras).unwrap().split('-').count(), 8);
    match gerar_por_palavras(4, true, true, &vec![]) {
        Err(AppError::Internal(m)) => assert_eq!(m, "lista de palavras vazia"),
        _ => panic!(),
    }
}

#[test]
fn capitalizing_words() {
    assert_eq!(capitalizar_palavra("cavalo"), "Cavalo");
    assert_eq!(capitalizar_palavra(""), "");
    assert_eq!(capitalizar_palavra("ébano"), "Ébano");
    assert_eq!(capitalizar_palavra("ß"), "SS");
}

#[test]
fn strength_scores() {
    assert_eq!(calcular_forca("abc"), ForcaSenha::Fraca);
    assert_eq!(calcular_forca("abcdefgh"), ForcaSenha::Fraca);
    assert_eq!(calcular_forca("abcdefgh1"), ForcaSenha::Media);
    assert_eq!(calcular_forca("Abcdefgh1"), ForcaSenha::Forte);
    assert_eq!(calcular_forca("Abcdefgh1!"), ForcaSenha::MuitoForte);
    assert_eq!(calcular_forca("Abcdefghijk1!"), ForcaSenha::MuitoForte);
    // length counts UTF-8 bytes: four two-byte letters reach 8
    assert_eq!(calcular_forca("éééé"), ForcaSenha::Fraca);
    assert_eq!(calcular_forca("éééé1"), ForcaSenha::Media);
    assert_eq!(calcular_forca("Cavalo-Jardim-Fogueira-42"), ForcaSenha::MuitoForte);
}

#[test]
fn audit_entries_name_their_password() {
    let e = audit_entry(1, "visualizar".into(), "agora".into(), None);
    assert_eq!(e.titulo, "(deletada)");
    let e = audit_entry(1, "copiar".into(), "agora".into(), Some("GitHub".into()));
    assert_eq!(e.titulo, "GitHub");
}

#[test]
fn listing_stops_at_the_first_row_that_does_not_decrypt() {
    let cipher = VaultCipher::new(&[8u8; 32]);
    let other = VaultCipher::new(&[9u8; 32]);
    let rows = vec![sample_row(&cipher, 1, "a"), sample_row(&other, 2, "b"), sample_row(&cipher, 3, "c")];
    match list_senhas(&rows, &ListQuery { page: None, page_size: None }, &cipher) {
        Err(AppError::Internal(m)) => assert_eq!(m, "master password incorreta"),
        _ => panic!("a row sealed under another key must not decrypt"),
    }
    // A page that does not reach the unreadable row is served.
    match list_senhas(&rows, &ListQuery { page: Some(1), page_size: Some(1) }, &cipher) {
        Ok(SenhaList::Paged(p)) => assert_eq!(p.items[0].senha, "a"),
        _ => panic!(),
    }
    match row_to_response(&rows[1], &cipher) {
        Err(AppError::Internal(m)) => assert_eq!(m, "master password incorreta"),
        _ => panic!(),
    }
}

#[test]
fn history_lists_every_version_and_stops_at_an_unreadable_one() {
    let cipher = VaultCipher::new(&[6u8; 32]);
    let other = VaultCipher::new(&[7u8; 32]);
    let version = |id: i64, c: &VaultCipher, senha: &str| {
        let (ct, nonce) = c.encrypt(senha).unwrap();
        SenhaVersaoRow { id, titulo: format!("V{id}"), login: "l".into(), senha_ciphertext: ct, senha_nonce: nonce, alterado_em: "ontem".into() }
    };
    let ok = vec![version(1, &cipher, "um"), version(2, &cipher, "dois")];
    let r = versions_to_responses(&ok, &cipher).unwrap();
    assert_eq!(r.iter().map(|v| v.senha.clone()).collect::<Vec<_>>(), vec!["um", "dois"]);
    assert_eq!(r[1].titulo, "V2");
    let bad = vec![version(1, &cipher, "um"), version(2, &other, "dois")];
    match versions_to_responses(&bad, &cipher) {
        Err(AppError::Internal(m)) => assert_eq!(m, "master password incorreta"),
        _ => panic!(),
    }
    assert!(versions_to_responses(&vec![], &cipher).unwrap().is_empty());
}

#[test]
fn saved_response_echoes_the_request() {
    let r = saved_response(12, criar("GitHub", "daniel", "segredo"), "2024-05-01".into());
    assert_eq!((r.id, r.titulo.as_str(), r.login.as_str(), r.senha.as_str()), (12, "GitHub", "daniel", "segredo"));
    assert_eq!((r.categoria.as_str(), r.criado_em.as_str()), ("Pessoal", "2024-05-01"));
    assert!(r.url.is_none() && r.notas.is_none());
}

#[test]
fn word_phrase_splits_into_its_words() {
    let palavras: Vec<String> = vec!["cavalo".into(), "jardim".into(), "fogueira".into()];
    let frase = gerar_por_palavras(4, true, true, &palavras).unwrap();
    let parts: Vec<&str> = frase.split('-').collect();
    assert_eq!(parts.len(), 5);
    for p in &parts[..4] {
        assert!(["Cavalo", "Jardim", "Fogueira"].contains(p));
    }
    let n: u32 = parts[4].parse().unwrap();
    assert!((10..100).contains(&n));
    assert_eq!(calcular_forca(&frase), ForcaSenha::MuitoForte);
}

#[test]
fn export_and_unpaged_list_give_the_same_items() {
    let cipher = VaultCipher::new(&[4u8; 32]);
    let rows: Vec<SenhaRow> = (1..=3).map(|i| sample_row(&cipher, i, &format!("s{i}"))).collect();
    let exported = cofresenhas_rs::server::handlers::senhas::rows_to_responses(&rows, 0, rows.len(), &cipher).unwrap();
    let listed = match list_senhas(&rows, &ListQuery { page: None, page_size: None }, &cipher).unwrap() {
        SenhaList::All(v) => v,
        SenhaList::Paged(_) => panic!(),
    };
    let key = |s: &SenhaResponse| (s.id, s.titulo.clone(), s.senha.clone(), s.url.clone(), s.criado_em.clone());
    assert_eq!(listed.iter().map(key).collect::<Vec<_>>(), exported.iter().map(key).collect::<Vec<_>>());
}

#[test]
fn uncapitalized_phrase_of_accented_words_splits_too() {
    let palavras: Vec<String> = vec!["ébano".into(), "maçã".into()];
    let frase = gerar_por_palavras(3, false, false, &palavras).unwrap();
    let parts: Vec<&str> = frase.split('-').collect();
    assert_eq!(parts.len(), 3);
    assert!(parts.iter().all(|p| *p == "ébano" || *p == "maçã"));
}
