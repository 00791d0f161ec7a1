//! Geração das configurações rsyslog do relay e dos receptores.
//!
//! Tudo que é gerado aqui passa por `rsyslogd -N1` antes de qualquer container subir.

use vstd::prelude::*;
use vstd::string::*;

use crate::config::{nome_do_receptor, nome_receptor, Config, ModoTls, Relay};
use crate::decimal::{digitos, lemma_digitos_sao_algarismos};
use crate::metricas::{arquivo_do_log, nome_do_log};
use crate::percurso::RECORTE;
use crate::texto::{contem, decimal};

verus! {

/// Porta que os geradores usam para falar com o relay (TCP e UDP).
pub const PORTA_ENTRADA: u16 = 5514;

/// Porta TLS que o relay usa para falar com os receptores.
pub const PORTA_TLS: u16 = 6514;

/// Os arquivos do certificado do receptor; nada no modo anônimo.
pub open spec fn certificado_do_receptor(modo: ModoTls) -> Seq<char> {
    match modo {
        ModoTls::Anon => Seq::empty(),
        ModoTls::Certvalid =>
            "    DefaultNetstreamDriver=\"gtls\"\n    DefaultNetstreamDriverCertFile=\"/etc/hsb/certs/cert.pem\"\n    DefaultNetstreamDriverKeyFile=\"/etc/hsb/certs/key.pem\"\n"@,
    }
}

/// A configuração de um receptor até o nome do seu log. AuthMode "anon" no receptor significa: não
/// exigir certificado do cliente.
pub open spec fn receptor_ate_o_log(modo: ModoTls) -> Seq<char> {
    "# Receptor gerado pelo HugeSyslogs.\nglobal(\n    workDirectory=\"/tmp\"\n"@
        + certificado_do_receptor(modo)
        + ")\n\nmodule(load=\"imtcp\"\n       StreamDriver.Name=\"gtls\"\n       StreamDriver.Mode=\"1\"\n       StreamDriver.AuthMode=\"anon\")\n\ninput(type=\"imtcp\" port=\""@
        + digitos(PORTA_TLS as nat)
        + "\")\n\ntemplate(name=\"hsb\" type=\"string\"\n         string=\"%timegenerated:::date-rfc3339% %msg:1:"@
        + digitos(RECORTE as nat)
        + "%\\n\")\n\naction(type=\"omfile\" file=\"/out/"@
}

/// A configuração de um receptor depois do nome do seu log.
pub open spec fn receptor_apos_o_log() -> Seq<char> {
    "\" template=\"hsb\"\n       asyncWriting=\"on\" ioBufferSize=\"64k\" flushOnTXEnd=\"off\")\n"@
}

/// A configuração de um receptor: só o nome do log, com o índice, distingue uma da outra.
pub open spec fn conf_do_receptor(cfg: Config, indice: usize) -> Seq<char> {
    receptor_ate_o_log(cfg.tls.modo) + nome_do_log(nome_do_receptor(indice as nat))
        + receptor_apos_o_log()
}

/// Configuração de um receptor do pool.
///
/// `indice` é 1-based e casa com o nome DNS `recv-N` dentro da rede podman.
pub fn conf_receptor(cfg: &Config, indice: usize) -> (r: String)
    ensures
        r@ == conf_do_receptor(*cfg, indice),
{
    let mut s =
        "# Receptor gerado pelo HugeSyslogs.\nglobal(\n    workDirectory=\"/tmp\"\n".to_owned();
    let certificado = match cfg.tls.modo {
        ModoTls::Anon => String::new(),
        ModoTls::Certvalid =>
            "    DefaultNetstreamDriver=\"gtls\"\n    DefaultNetstreamDriverCertFile=\"/etc/hsb/certs/cert.pem\"\n    DefaultNetstreamDriverKeyFile=\"/etc/hsb/certs/key.pem\"\n".to_owned(),
    };
    proof {
        assert(certificado@ =~= certificado_do_receptor(cfg.tls.modo));
    }
    s.append(certificado.as_str());
    s.append(
        ")\n\nmodule(load=\"imtcp\"\n       StreamDriver.Name=\"gtls\"\n       StreamDriver.Mode=\"1\"\n       StreamDriver.AuthMode=\"anon\")\n\ninput(type=\"imtcp\" port=\"",
    );
    s.append(decimal(PORTA_TLS as u128).as_str());
    // Só o começo do corpo: descarta o padding e mantém a linha com tamanho fixo, independente
    // de teste.tamanho_mensagem.
    s.append(
        "\")\n\ntemplate(name=\"hsb\" type=\"string\"\n         string=\"%timegenerated:::date-rfc3339% %msg:1:",
    );
    s.append(decimal(RECORTE as u128).as_str());
    s.append("%\\n\")\n\naction(type=\"omfile\" file=\"/out/");
    s.append(arquivo_do_log(nome_receptor(indice).as_str()).as_str());
    s.append(
        "\" template=\"hsb\"\n       asyncWriting=\"on\" ioBufferSize=\"64k\" flushOnTXEnd=\"off\")\n",
    );
    s
}

/// Os nomes dos `n` primeiros receptores, entre aspas e separados por vírgula.
pub open spec fn alvos(n: nat) -> Seq<char>
    decreases n,
{
    if n == 0 {
        Seq::empty()
    } else if n == 1 {
        "\""@ + nome_do_receptor(1) + "\""@
    } else {
        alvos((n - 1) as nat) + ", "@ + ("\""@ + nome_do_receptor(n) + "\""@)
    }
}

fn listar_alvos(n: usize) -> (r: String)
    ensures
        r@ == alvos(n as nat),
{
    let mut r = String::new();
    let mut i: usize = 0;
    proof {
        assert(r@ =~= alvos(0));
    }
    while i < n
        invariant
            i <= n,
            r@ == alvos(i as nat),
        decreases n - i,
    {
        i = i + 1;
        let mut alvo = "\"".to_owned();
        alvo.append(nome_receptor(i).as_str());
        alvo.append("\"");
        if i == 1 {
            r = alvo;
        } else {
            r.append(", ");
            r.append(alvo.as_str());
        }
    }
    r
}

/// A autoridade que valida os receptores; nada no modo anônimo.
pub open spec fn certificado_do_relay(modo: ModoTls) -> Seq<char> {
    match modo {
        ModoTls::Anon => Seq::empty(),
        ModoTls::Certvalid =>
            "    DefaultNetstreamDriver=\"gtls\"\n    DefaultNetstreamDriverCAFile=\"/etc/hsb/certs/cert.pem\"\n"@,
    }
}

/// Como o relay autentica os receptores.
pub open spec fn autenticacao(modo: ModoTls) -> Seq<char> {
    match modo {
        ModoTls::Anon => "anon"@,
        ModoTls::Certvalid => "x509/certvalid"@,
    }
}

/// De quantas em quantas mensagens o relay refaz as conexões; nada se não refaz.
pub open spec fn religacao(relay: Relay) -> Seq<char> {
    if relay.rebind_interval > 0 {
        "    rebindInterval=\""@ + digitos(relay.rebind_interval as nat) + "\"\n"@
    } else {
        Seq::empty()
    }
}

/// A configuração do relay até o envio.
pub open spec fn entrada_do_relay(modo: ModoTls) -> Seq<char> {
    "# Relay gerado pelo HugeSyslogs.\nglobal(\n    workDirectory=\"/tmp\"\n"@
        + certificado_do_relay(modo)
        + ")\n\nmodule(load=\"impstats\" interval=\"5\" format=\"json\"\n       log.file=\"/out/relay-stats.log\" log.syslog=\"off\" resetCounters=\"off\")\n\nmodule(load=\"imudp\")\ninput(type=\"imudp\" port=\""@
        + digitos(PORTA_ENTRADA as nat)
        + "\" rcvbufSize=\"16m\")\n\nmodule(load=\"imtcp\")\ninput(type=\"imtcp\" port=\""@
        + digitos(PORTA_ENTRADA as nat) + "\")\n\n"@
}

/// O envio do relay aos receptores.
pub open spec fn saida_do_relay(cfg: Config) -> Seq<char> {
    "action(\n    type=\"omfwd\"\n    target=["@ + alvos(cfg.receptores.quantidade as nat)
        + "]\n    port=\""@ + digitos(PORTA_TLS as nat)
        + "\"\n    protocol=\"tcp\"\n    StreamDriver=\"gtls\"\n    StreamDriverMode=\"1\"\n    StreamDriverAuthMode=\""@
        + autenticacao(cfg.tls.modo)
        + "\"\n    TCP_Framing=\"octet-counted\"\n    queue.type=\"linkedList\"\n    queue.size=\""@
        + digitos(cfg.relay.tamanho_fila as nat) + "\"\n    queue.workerThreads=\""@ + digitos(
        cfg.relay.workers_fila as nat,
    ) + "\"\n"@ + religacao(cfg.relay) + ")\n"@
}

fn escrever_entrada(modo: ModoTls) -> (r: String)
    ensures
        r@ == entrada_do_relay(modo),
{
    let mut s =
        "# Relay gerado pelo HugeSyslogs.\nglobal(\n    workDirectory=\"/tmp\"\n".to_owned();
    let certificado = match modo {
        ModoTls::Anon => String::new(),
        ModoTls::Certvalid =>
            "    DefaultNetstreamDriver=\"gtls\"\n    DefaultNetstreamDriverCAFile=\"/etc/hsb/certs/cert.pem\"\n".to_owned(),
    };
    proof {
        assert(certificado@ =~= certificado_do_relay(modo));
    }
    s.append(certificado.as_str());
    s.append(
        ")\n\nmodule(load=\"impstats\" interval=\"5\" format=\"json\"\n       log.file=\"/out/relay-stats.log\" log.syslog=\"off\" resetCounters=\"off\")\n\nmodule(load=\"imudp\")\ninput(type=\"imudp\" port=\"",
    );
    s.append(decimal(PORTA_ENTRADA as u128).as_str());
    s.append("\" rcvbufSize=\"16m\")\n\nmodule(load=\"imtcp\")\ninput(type=\"imtcp\" port=\"");
    s.append(decimal(PORTA_ENTRADA as u128).as_str());
    s.append("\")\n\n");
    s
}

fn escrever_saida(cfg: &Config) -> (r: String)
    ensures
        r@ == saida_do_relay(*cfg),
{
    let mut religar = String::new();
    if cfg.relay.rebind_interval > 0 {
        religar.append("    rebindInterval=\"");
        religar.append(decimal(cfg.relay.rebind_interval as u128).as_str());
        religar.append("\"\n");
    }
    proof {
        assert(religar@ =~= religacao(cfg.relay));
    }
    let mut s = "action(\n    type=\"omfwd\"\n    target=[".to_owned();
    s.append(listar_alvos(cfg.receptores.quantidade).as_str());
    s.append("]\n    port=\"");
    s.append(decimal(PORTA_TLS as u128).as_str());
    s.append(
        "\"\n    protocol=\"tcp\"\n    StreamDriver=\"gtls\"\n    StreamDriverMode=\"1\"\n    StreamDriverAuthMode=\"",
    );
    s.append(
        match cfg.tls.modo {
            ModoTls::Anon => "anon",
            ModoTls::Certvalid => "x509/certvalid",
        },
    );
    s.append(
        "\"\n    TCP_Framing=\"octet-counted\"\n    queue.type=\"linkedList\"\n    queue.size=\"",
    );
    s.append(decimal(cfg.relay.tamanho_fila as u128).as_str());
    s.append("\"\n    queue.workerThreads=\"");
    s.append(decimal(cfg.relay.workers_fila as u128).as_str());
    s.append("\"\n");
    s.append(religar.as_str());
    s.append(")\n");
    s
}

/// Configuração do relay: recebe TCP e UDP, encaminha por TLS em round-robin.
pub fn conf_relay(cfg: &Config) -> (r: String)
    ensures
        r@ == entrada_do_relay(cfg.tls.modo) + saida_do_relay(*cfg),
{
    let mut s = escrever_entrada(cfg.tls.modo);
    s.append(escrever_saida(cfg).as_str());
    s
}

/// O relay encaminha a todos os receptores.
pub proof fn lei_todos_os_alvos(n: nat, i: nat)
    requires
        1 <= i <= n,
    ensures
        contem(alvos(n), "\""@ + nome_do_receptor(i) + "\""@),
    decreases n,
{
    let alvo = "\""@ + nome_do_receptor(i) + "\""@;
    if i == n {
        let de = alvos(n).len() - alvo.len();
        assert(alvos(n).subrange(de, de + alvo.len()) =~= alvo);
    } else {
        lei_todos_os_alvos((n - 1) as nat, i);
        let antes = alvos((n - 1) as nat);
        let de = choose|de: int|
            0 <= de && de + alvo.len() <= antes.len() && #[trigger] antes.subrange(
                de,
                de + alvo.len(),
            ) == alvo;
        assert(alvos(n).subrange(de, de + alvo.len()) =~= antes.subrange(de, de + alvo.len()));
    }
}

// ---- O que distingue as configurações dos receptores ----

/// Se o trecho `t` está em `s` a partir da posição `p`.
pub open spec fn ocorre_em(s: Seq<char>, t: Seq<char>, p: int) -> bool {
    0 <= p && p + t.len() <= s.len() && s.subrange(p, p + t.len()) == t
}

/// O texto com cada ocorrência de `de`, que não é vazio, trocada por `para`, da esquerda para a
/// direita.
pub open spec fn trocado(s: Seq<char>, de: Seq<char>, para: Seq<char>) -> Seq<char>
    decreases s.len(),
{
    if de.len() == 0 || s.len() < de.len() {
        s
    } else if ocorre_em(s, de, 0) {
        para + trocado(s.skip(de.len() as int), de, para)
    } else {
        seq![s[0]] + trocado(s.skip(1), de, para)
    }
}

/// Antes da primeira ocorrência o texto não muda.
proof fn lemma_trocado_adiante(s: Seq<char>, de: Seq<char>, para: Seq<char>, n: int)
    requires
        de.len() > 0,
        0 <= n <= s.len(),
        forall|p: int| 0 <= p < n ==> !ocorre_em(s, de, p),
    ensures
        trocado(s, de, para) == s.take(n) + trocado(s.skip(n), de, para),
    decreases n,
{
    if n == 0 {
        assert(s.take(0) + trocado(s, de, para) =~= trocado(s, de, para));
        assert(s.skip(0) =~= s);
    } else if s.len() < de.len() {
        assert(s.take(n) + s.skip(n) =~= s);
    } else {
        assert(!ocorre_em(s, de, 0));
        let r = s.skip(1);
        assert forall|p: int| 0 <= p < n - 1 implies !ocorre_em(r, de, p) by {
            if ocorre_em(r, de, p) {
                assert(s.subrange(p + 1, p + 1 + de.len()) =~= r.subrange(p, p + de.len()));
                assert(ocorre_em(s, de, p + 1));
            }
        }
        lemma_trocado_adiante(r, de, para, n - 1);
        assert(r.skip(n - 1) =~= s.skip(n));
        assert(seq![s[0]] + r.take(n - 1) =~= s.take(n));
        assert(seq![s[0]] + (r.take(n - 1) + trocado(s.skip(n), de, para)) =~= (seq![s[0]] + r.take(
            n - 1,
        )) + trocado(s.skip(n), de, para));
    }
}

/// Se cada hífen do texto vem depois de um `e`.
spec fn hifen_so_apos_e(s: Seq<char>) -> bool {
    forall|i: int| 0 <= i < s.len() && #[trigger] s[i] == '-' ==> i > 0 && s[i - 1] == 'e'
}

/// Se nenhum ponto do texto acaba o texto ou vem antes de um `p`.
spec fn ponto_nunca_antes_de_p(s: Seq<char>) -> bool {
    forall|i: int|
        0 <= i < s.len() && #[trigger] s[i] == '.' ==> i + 1 < s.len() && s[i + 1] != 'p'
}

proof fn lemma_trechos(a: Seq<char>, b: Seq<char>)
    ensures
        hifen_so_apos_e(a) && hifen_so_apos_e(b) ==> hifen_so_apos_e(a + b),
        ponto_nunca_antes_de_p(a) && ponto_nunca_antes_de_p(b) ==> ponto_nunca_antes_de_p(a + b),
{
    let s = a + b;
    if hifen_so_apos_e(a) && hifen_so_apos_e(b) {
        assert forall|i: int| 0 <= i < s.len() && #[trigger] s[i] == '-' implies i > 0 && s[i - 1]
            == 'e' by {
            if i < a.len() {
                assert(a[i] == '-');
            } else {
                assert(b[i - a.len()] == '-');
            }
        }
    }
    if ponto_nunca_antes_de_p(a) && ponto_nunca_antes_de_p(b) {
        assert forall|i: int| 0 <= i < s.len() && #[trigger] s[i] == '.' implies i + 1 < s.len()
            && s[i + 1] != 'p' by {
            if i < a.len() {
                assert(a[i] == '.');
            } else {
                assert(b[i - a.len()] == '.');
            }
        }
    }
}

proof fn lemma_numeral_sem_pontuacao(n: nat)
    ensures
        hifen_so_apos_e(digitos(n)),
        ponto_nunca_antes_de_p(digitos(n)),
{
    lemma_digitos_sao_algarismos(n);
    let d = digitos(n);
    assert forall|i: int| 0 <= i < d.len() implies #[trigger] d[i] != '-' && d[i] != '.' by {
        assert('0' <= d[i] <= '9');
    }
}

proof fn lemma_trecho_global()
    ensures
        hifen_so_apos_e(
            "# Receptor gerado pelo HugeSyslogs.\nglobal(\n    workDirectory=\"/tmp\"\n"@,
        ),
        ponto_nunca_antes_de_p(
            "# Receptor gerado pelo HugeSyslogs.\nglobal(\n    workDirectory=\"/tmp\"\n"@,
        ),
{
    reveal_strlit("# Receptor gerado pelo HugeSyslogs.\nglobal(\n    workDirectory=\"/tmp\"\n");
}

proof fn lemma_trecho_da_entrada()
    ensures
        hifen_so_apos_e(
            ")\n\nmodule(load=\"imtcp\"\n       StreamDriver.Name=\"gtls\"\n       StreamDriver.Mode=\"1\"\n       StreamDriver.AuthMode=\"anon\")\n\ninput(type=\"imtcp\" port=\""@,
        ),
        ponto_nunca_antes_de_p(
            ")\n\nmodule(load=\"imtcp\"\n       StreamDriver.Name=\"gtls\"\n       StreamDriver.Mode=\"1\"\n       StreamDriver.AuthMode=\"anon\")\n\ninput(type=\"imtcp\" port=\""@,
        ),
{
    reveal_strlit(
        ")\n\nmodule(load=\"imtcp\"\n       StreamDriver.Name=\"gtls\"\n       StreamDriver.Mode=\"1\"\n       StreamDriver.AuthMode=\"anon\")\n\ninput(type=\"imtcp\" port=\"",
    );
}

proof fn lemma_trecho_do_modelo()
    ensures
        hifen_so_apos_e(
            "\")\n\ntemplate(name=\"hsb\" type=\"string\"\n         string=\"%timegenerated:::date-rfc3339% %msg:1:"@,
        ),
        ponto_nunca_antes_de_p(
            "\")\n\ntemplate(name=\"hsb\" type=\"string\"\n         string=\"%timegenerated:::date-rfc3339% %msg:1:"@,
        ),
{
    reveal_strlit(
        "\")\n\ntemplate(name=\"hsb\" type=\"string\"\n         string=\"%timegenerated:::date-rfc3339% %msg:1:",
    );
}

proof fn lemma_trecho_da_acao()
    ensures
        hifen_so_apos_e("%\\n\")\n\naction(type=\"omfile\" file=\"/out/"@),
        ponto_nunca_antes_de_p("%\\n\")\n\naction(type=\"omfile\" file=\"/out/"@),
{
    reveal_strlit("%\\n\")\n\naction(type=\"omfile\" file=\"/out/");
}

proof fn lemma_trecho_final()
    ensures
        hifen_so_apos_e(receptor_apos_o_log()),
        ponto_nunca_antes_de_p(receptor_apos_o_log()),
{
    reveal_strlit(
        "\" template=\"hsb\"\n       asyncWriting=\"on\" ioBufferSize=\"64k\" flushOnTXEnd=\"off\")\n",
    );
}

proof fn lemma_trecho_do_certificado()
    ensures
        hifen_so_apos_e(certificado_do_receptor(ModoTls::Certvalid)),
        ocorre_em(certificado_do_receptor(ModoTls::Certvalid), "cert.pem"@, 85),
        ocorre_em(certificado_do_receptor(ModoTls::Certvalid), "key.pem"@, 145),
{
    reveal_strlit(
        "    DefaultNetstreamDriver=\"gtls\"\n    DefaultNetstreamDriverCertFile=\"/etc/hsb/certs/cert.pem\"\n    DefaultNetstreamDriverKeyFile=\"/etc/hsb/certs/key.pem\"\n",
    );
    reveal_strlit("cert.pem");
    reveal_strlit("key.pem");
    let c = certificado_do_receptor(ModoTls::Certvalid);
    assert(c.subrange(85, 93) =~= "cert.pem"@);
    assert(c.subrange(145, 152) =~= "key.pem"@);
}

/// Fora do nome do log, nada na configuração se parece com o de um receptor.
proof fn lemma_texto_em_volta(modo: ModoTls)
    ensures
        hifen_so_apos_e(receptor_ate_o_log(modo)),
        modo == ModoTls::Anon ==> ponto_nunca_antes_de_p(receptor_ate_o_log(modo)),
        hifen_so_apos_e(receptor_apos_o_log()),
        ponto_nunca_antes_de_p(receptor_apos_o_log()),
{
    lemma_trecho_global();
    lemma_trecho_da_entrada();
    lemma_trecho_do_modelo();
    lemma_trecho_da_acao();
    lemma_trecho_final();
    lemma_trecho_do_certificado();
    lemma_numeral_sem_pontuacao(PORTA_TLS as nat);
    lemma_numeral_sem_pontuacao(RECORTE as nat);
    let t1 = "# Receptor gerado pelo HugeSyslogs.\nglobal(\n    workDirectory=\"/tmp\"\n"@;
    let t2 =
        ")\n\nmodule(load=\"imtcp\"\n       StreamDriver.Name=\"gtls\"\n       StreamDriver.Mode=\"1\"\n       StreamDriver.AuthMode=\"anon\")\n\ninput(type=\"imtcp\" port=\""@;
    let t3 =
        "\")\n\ntemplate(name=\"hsb\" type=\"string\"\n         string=\"%timegenerated:::date-rfc3339% %msg:1:"@;
    let t4 = "%\\n\")\n\naction(type=\"omfile\" file=\"/out/"@;
    let a = t1 + certificado_do_receptor(modo);
    lemma_trechos(t1, certificado_do_receptor(modo));
    lemma_trechos(a, t2);
    lemma_trechos(a + t2, digitos(PORTA_TLS as nat));
    lemma_trechos(a + t2 + digitos(PORTA_TLS as nat), t3);
    lemma_trechos(a + t2 + digitos(PORTA_TLS as nat) + t3, digitos(RECORTE as nat));
    lemma_trechos(
        a + t2 + digitos(PORTA_TLS as nat) + t3 + digitos(RECORTE as nat),
        t4,
    );
}

/// O log de um receptor tem um só hífen, depois de um `v`, e um só ponto, antes de um `l`.
proof fn lemma_nome_do_log(i: nat)
    ensures
        ({
            let l = nome_do_log(nome_do_receptor(i));
            &&& l.len() > 5
            &&& l[3] == 'v'
            &&& l[4] == '-'
            &&& forall|k: int| 0 <= k < l.len() && #[trigger] l[k] == '-' ==> k == 4
            &&& ponto_nunca_antes_de_p(l)
        }),
{
    reveal_strlit("recv-");
    reveal_strlit(".log");
    let l = nome_do_log(nome_do_receptor(i));
    let d = digitos(i);
    lemma_digitos_sao_algarismos(i);
    assert forall|k: int| 0 <= k < l.len() && k != 4 implies #[trigger] l[k] != '-' by {
        if 5 <= k < 5 + d.len() {
            assert(l[k] == d[k - 5]);
            assert('0' <= d[k - 5] <= '9');
        }
    }
    assert forall|k: int| 0 <= k < l.len() && #[trigger] l[k] == '.' implies k + 1 < l.len()
        && l[k + 1] != 'p' by {
        if 5 <= k < 5 + d.len() {
            assert(l[k] == d[k - 5]);
            assert('0' <= d[k - 5] <= '9');
        }
    }
}

/// O nome do log ocorre uma só vez na configuração do receptor.
proof fn lemma_ocorrencia_unica(cfg: Config, i: usize, p: int)
    requires
        ocorre_em(conf_do_receptor(cfg, i), nome_do_log(nome_do_receptor(i as nat)), p),
    ensures
        p == receptor_ate_o_log(cfg.tls.modo).len(),
{
    let s = conf_do_receptor(cfg, i);
    let a = receptor_ate_o_log(cfg.tls.modo);
    let l = nome_do_log(nome_do_receptor(i as nat));
    let b = receptor_apos_o_log();
    lemma_texto_em_volta(cfg.tls.modo);
    lemma_nome_do_log(i as nat);
    let trecho = s.subrange(p, p + l.len());
    assert(trecho[3] == s[p + 3] && trecho[4] == s[p + 4]);
    if p + 4 < a.len() {
        assert(a[p + 4] == '-');
        assert(a[p + 3] == 'v');
    } else if p + 4 < a.len() + l.len() {
        assert(l[p + 4 - a.len()] == '-');
    } else {
        assert(b[p + 4 - a.len() - l.len()] == '-');
        assert(b[p + 3 - a.len() - l.len()] == 'e');
    }
}

/// Entre as configurações de dois receptores só muda o índice no nome do log, que ocorre uma só
/// vez: trocar um nome pelo outro dá a outra configuração.
pub proof fn lei_so_o_indice_distingue(cfg: Config, i: usize, j: usize)
    ensures
        forall|p: int|
            ocorre_em(conf_do_receptor(cfg, i), nome_do_log(nome_do_receptor(i as nat)), p) <==> p
                == receptor_ate_o_log(cfg.tls.modo).len(),
        trocado(
            conf_do_receptor(cfg, i),
            nome_do_log(nome_do_receptor(i as nat)),
            nome_do_log(nome_do_receptor(j as nat)),
        ) == conf_do_receptor(cfg, j),
{
    let s = conf_do_receptor(cfg, i);
    let a = receptor_ate_o_log(cfg.tls.modo);
    let l = nome_do_log(nome_do_receptor(i as nat));
    let m = nome_do_log(nome_do_receptor(j as nat));
    let b = receptor_apos_o_log();
    lemma_nome_do_log(i as nat);
    assert(s.subrange(a.len() as int, a.len() as int + l.len()) =~= l);
    assert forall|p: int| #[trigger] ocorre_em(s, l, p) implies p == a.len() by {
        lemma_ocorrencia_unica(cfg, i, p);
    }
    lemma_trocado_adiante(s, l, m, a.len() as int);
    let r = s.skip(a.len() as int);
    assert(s.take(a.len() as int) =~= a);
    assert(r =~= l + b);
    assert(r.subrange(0, l.len() as int) =~= l);
    assert(r.skip(l.len() as int) =~= b);
    assert forall|p: int| 0 <= p < b.len() implies !ocorre_em(b, l, p) by {
        if ocorre_em(b, l, p) {
            let q = a.len() + l.len() + p;
            assert(s.subrange(q, q + l.len()) =~= b.subrange(p, p + l.len()));
            assert(ocorre_em(s, l, q));
        }
    }
    lemma_trocado_adiante(b, l, m, b.len() as int);
    assert(b.skip(b.len() as int) =~= Seq::<char>::empty());
    assert(b.take(b.len() as int) + Seq::<char>::empty() =~= b);
    assert(trocado(s, l, m) =~= a + (m + b));
    assert(a + (m + b) =~= conf_do_receptor(cfg, j));
}

proof fn lemma_sem_pem(s: Seq<char>, t: Seq<char>, k: int)
    requires
        ponto_nunca_antes_de_p(s),
        0 <= k < t.len() - 1,
        t[k] == '.',
        t[k + 1] == 'p',
    ensures
        !contem(s, t),
{
    if contem(s, t) {
        let p = choose|p: int|
            0 <= p && p + t.len() <= s.len() && #[trigger] s.subrange(p, p + t.len()) == t;
        let trecho = s.subrange(p, p + t.len());
        assert(trecho[k] == s[p + k] && trecho[k + 1] == s[p + k + 1]);
    }
}

/// O certificado e a chave são citados se e somente se o modo é o que os usa.
pub proof fn lei_certificado_so_no_certvalid(cfg: Config, i: usize)
    ensures
        contem(conf_do_receptor(cfg, i), "cert.pem"@) <==> cfg.tls.modo == ModoTls::Certvalid,
        contem(conf_do_receptor(cfg, i), "key.pem"@) <==> cfg.tls.modo == ModoTls::Certvalid,
{
    let s = conf_do_receptor(cfg, i);
    let l = nome_do_log(nome_do_receptor(i as nat));
    reveal_strlit("cert.pem");
    reveal_strlit("key.pem");
    if cfg.tls.modo == ModoTls::Certvalid {
        let t1 = "# Receptor gerado pelo HugeSyslogs.\nglobal(\n    workDirectory=\"/tmp\"\n"@;
        let c = certificado_do_receptor(cfg.tls.modo);
        lemma_trecho_do_certificado();
        let n = t1.len() as int;
        assert(s.subrange(n + 85, n + 85 + "cert.pem"@.len()) =~= c.subrange(85, 93));
        assert(s.subrange(n + 145, n + 145 + "key.pem"@.len()) =~= c.subrange(145, 152));
    } else {
        lemma_texto_em_volta(cfg.tls.modo);
        lemma_nome_do_log(i as nat);
        lemma_trechos(receptor_ate_o_log(cfg.tls.modo), l);
        lemma_trechos(receptor_ate_o_log(cfg.tls.modo) + l, receptor_apos_o_log());
        lemma_sem_pem(s, "cert.pem"@, 4);
        lemma_sem_pem(s, "key.pem"@, 3);
    }
}

} // verus!
