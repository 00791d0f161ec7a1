//! O certificado self-signed usado no modo `certvalid`.
//!
//! No modo `anon` (padrão) nenhum certificado é necessário e este módulo não é usado.

use vstd::prelude::*;
use vstd::string::*;

use crate::orquestrador::{caminho, juntar};
use crate::podman::{lista, textos};

verus! {

/// Onde ficam o certificado e a chave, e o comando do openssl que os gera.
pub struct Certificado {
    pub cert: String,
    pub chave: String,
    pub comando: Vec<String>,
    /// As permissões com que a chave fica: o rsyslog precisa lê-la dentro do container.
    pub permissoes_da_chave: u32,
}

/// Um par cert/chave self-signed em `destino`.
///
/// `openssl req -x509` já marca `basicConstraints=CA:TRUE`, então o próprio certificado
/// serve de âncora de confiança para o relay validar a cadeia.
pub fn gerar(destino: &str) -> (r: Certificado)
    ensures
        r.cert@ == caminho(destino@, "cert.pem"@),
        r.chave@ == caminho(destino@, "key.pem"@),
        textos(r.comando@) == seq![
            "req"@,
            "-x509"@,
            "-newkey"@,
            "rsa:2048"@,
            "-nodes"@,
            "-days"@,
            "365"@,
            "-subj"@,
            "/CN=hugesyslogs"@,
            "-keyout"@,
            r.chave@,
            "-out"@,
            r.cert@,
        ],
        r.permissoes_da_chave == 0o644,
{
    let cert = juntar(destino, "cert.pem");
    let chave = juntar(destino, "key.pem");
    let comando = lista(
        &[
            "req",
            "-x509",
            "-newkey",
            "rsa:2048",
            "-nodes",
            "-days",
            "365",
            "-subj",
            "/CN=hugesyslogs",
            "-keyout",
            chave.as_str(),
            "-out",
            cert.as_str(),
        ],
    );
    proof {
        assert(textos(comando@) =~= seq![
            "req"@,
            "-x509"@,
            "-newkey"@,
            "rsa:2048"@,
            "-nodes"@,
            "-days"@,
            "365"@,
            "-subj"@,
            "/CN=hugesyslogs"@,
            "-keyout"@,
            chave@,
            "-out"@,
            cert@,
        ]);
    }
    Certificado { cert, chave, comando, permissoes_da_chave: 0o644 }
}

/// Avalia como o openssl terminou, com o que ele escreveu na saída de erros.
pub fn avaliar_openssl(sucesso: bool, erros: &str) -> (r: Result<(), String>)
    ensures
        match r {
            Ok(_) => sucesso,
            Err(m) => !sucesso && m@ == "openssl falhou ao gerar o certificado:\n"@ + erros@,
        },
{
    if sucesso {
        return Ok(());
    }
    let mut m = "openssl falhou ao gerar o certificado:\n".to_owned();
    m.append(erros);
    Err(m)
}

} // verus!
